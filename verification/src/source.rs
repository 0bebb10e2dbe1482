//! Sources of random words.
//!
//! Sampling is written against the [`RandomSource`] trait, so that the
//! operating system's generator can be swapped for a scripted source.

use vstd::prelude::*;

verus! {

/// A supply of 32-bit words. Nothing is promised of the words themselves:
/// every caller in this crate is verified for whatever comes back. A source
/// keeps a record of what it handed out, so that contracts can say which
/// words a result was made of; and a source whose words are settled
/// beforehand says so, which makes its results known beforehand too.
pub trait RandomSource {
    /// The words handed out so far, oldest first.
    spec fn served(&self) -> Seq<u32>;

    /// The word that is handed out at the `turn`-th draw, counted from
    /// zero over the whole life of the source, where that is settled
    /// beforehand; `None` where it is not.
    spec fn foretold(&self, turn: nat) -> Option<u32>;

    /// Hands out the next word: the one foretold for this draw, if one is.
    /// What is foretold stays as it was.
    fn next_u32(&mut self) -> (word: u32)
        ensures
            final(self).served() == old(self).served().push(word),
            old(self).foretold(old(self).served().len()) matches Some(settled) ==> word == settled,
            forall|turn: nat| #[trigger] final(self).foretold(turn) == old(self).foretold(turn),
    ;
}

/// Whether the source `after` is the source `before` some draws later: it
/// has served what `before` had served and then more, each new word is the
/// one that was foretold for its draw, if one was, and what is foretold has
/// stayed as it was.
pub open spec fn carried_on<R: RandomSource>(before: R, after: R) -> bool {
    &&& before.served().is_prefix_of(after.served())
    &&& forall|turn: nat| #[trigger] after.foretold(turn) == before.foretold(turn)
    &&& forall|turn: nat|
        before.served().len() <= turn < after.served().len() && (#[trigger] before.foretold(turn))
            is Some ==> after.served()[turn as int] == before.foretold(turn)->0
}

/// A source that carried on, and then carried on from there, carried on.
pub proof fn lemma_carried_on_twice<R: RandomSource>(first: R, second: R, third: R)
    requires
        carried_on(first, second),
        carried_on(second, third),
    ensures
        carried_on(first, third),
{
    assert forall|turn: nat|
        first.served().len() <= turn < third.served().len() && (#[trigger] first.foretold(turn))
            is Some implies third.served()[turn as int] == first.foretold(turn)->0 by {
        assert(second.foretold(turn) == first.foretold(turn));
        if turn < second.served().len() {
            assert(third.served()[turn as int] == second.served()[turn as int]);
        }
    }
}

#[verifier::external_type_specification]
#[verifier::external_body]
pub struct ExOsRng(rand::OsRng);

/// Calls `rand::OsRng::new`, which opens the operating system's generator.
/// Whether that succeeds depends on the machine, so nothing is claimed of
/// the result; a failure comes back as `None`.
#[verifier::external_body]
fn open_os_rng() -> (rng: Option<rand::OsRng>)
{
    rand::OsRng::new().ok()
}

/// Calls `rand::Rng::next_u32` on the operating system's generator. The word
/// is random, so nothing is claimed of it. The generator panics if the
/// operating system stops delivering; no argument could prevent that.
#[verifier::external_body]
fn os_next_u32(rng: &mut rand::OsRng) -> (word: u32)
{
    rand::Rng::next_u32(rng)
}

/// The operating system's cryptographically secure generator.
pub struct OsSource {
    rng: rand::OsRng,
    served: Ghost<Seq<u32>>,
}

impl OsSource {
    /// Acquires the generator, or reports that it is unavailable.
    pub fn new() -> (source: Option<OsSource>)
        ensures
            source matches Some(fresh) ==> fresh.served() == Seq::<u32>::empty(),
    {
        OsSource::from_acquired(open_os_rng())
    }

    /// The generator that this source draws from.
    pub closed spec fn generator(&self) -> rand::OsRng {
        self.rng
    }

    /// Makes a source of what acquiring the generator gave: where a
    /// generator was had, a source that draws from it and has served
    /// nothing yet; where none was had, no source.
    pub fn from_acquired(acquired: Option<rand::OsRng>) -> (source: Option<OsSource>)
        ensures
            acquired is None ==> source is None,
            acquired matches Some(rng) ==> source matches Some(fresh) && fresh.generator() == rng
                && fresh.served() == Seq::<u32>::empty(),
    {
        match acquired {
            Some(rng) => Some(OsSource { rng, served: Ghost(Seq::empty()) }),
            None => None,
        }
    }
}

impl RandomSource for OsSource {
    closed spec fn served(&self) -> Seq<u32> {
        self.served@
    }

    /// No word of the operating system's generator is settled beforehand.
    open spec fn foretold(&self, turn: nat) -> Option<u32> {
        None
    }

    fn next_u32(&mut self) -> (word: u32) {
        let word = os_next_u32(&mut self.rng);
        self.served = Ghost(self.served@.push(word));
        word
    }
}

/// A source that hands out the words of a script, in their order and over
/// again from the start once the script is through. An empty script gives
/// zeros. It makes a result of this crate repeatable.
pub struct ScriptedSource {
    script: Vec<u32>,
    progress: Progress,
}

/// How far a scripted source has come: the place in the script of the next
/// word, the number of words handed out, and those words.
struct Progress {
    position: usize,
    drawn: usize,
    served: Ghost<Seq<u32>>,
}

/// The word that a script gives at its `turn`-th draw, counted from zero.
pub open spec fn scripted_word(script: Seq<u32>, turn: nat) -> u32 {
    if script.len() == 0 {
        0
    } else {
        script[(turn % script.len()) as int]
    }
}

impl ScriptedSource {
    #[verifier::type_invariant]
    spec fn well_formed(self) -> bool {
        &&& self.script@.len() > 0 ==> self.progress.position == self.progress.served@.len()
            % self.script@.len()
        &&& self.progress.drawn == if self.progress.served@.len() <= usize::MAX {
            self.progress.served@.len()
        } else {
            usize::MAX as nat
        }
    }

    /// The words that this source goes through.
    pub closed spec fn script(&self) -> Seq<u32> {
        self.script@
    }

    /// A source that is about to give the first word of `script`, and that
    /// foretells every word it will give.
    pub fn new(script: Vec<u32>) -> (source: ScriptedSource)
        ensures
            source.script() == script@,
            forall|turn: nat| #[trigger] source.foretold(turn) == Some(scripted_word(script@, turn)),
            source.served() == Seq::<u32>::empty(),
    {
        proof {
            if script@.len() > 0 {
                vstd::arithmetic::div_mod::lemma_small_mod(0, script@.len());
            }
        }
        ScriptedSource {
            script,
            progress: Progress { position: 0, drawn: 0, served: Ghost(Seq::empty()) },
        }
    }

    /// What a scripted source foretells is its script, over and over.
    pub proof fn lemma_foretells_script(&self)
        ensures
            forall|turn: nat| #[trigger]
                self.foretold(turn) == Some(scripted_word(self.script(), turn)),
    {
    }

    /// How many words were handed out, as far as a `usize` can count.
    pub fn drawn(&self) -> (count: usize)
        ensures
            count == if self.served().len() <= usize::MAX {
                self.served().len()
            } else {
                usize::MAX as nat
            },
    {
        proof {
            use_type_invariant(self);
        }
        self.progress.drawn
    }
}

impl RandomSource for ScriptedSource {
    closed spec fn served(&self) -> Seq<u32> {
        self.progress.served@
    }

    /// Every word of a script is settled beforehand.
    closed spec fn foretold(&self, turn: nat) -> Option<u32> {
        Some(scripted_word(self.script@, turn))
    }

    fn next_u32(&mut self) -> (word: u32)
        ensures
            final(self).script() == old(self).script(),
            word == scripted_word(old(self).script(), old(self).served().len()),
    {
        proof {
            use_type_invariant(&*self);
        }
        let length = self.script.len();
        let position = self.progress.position;
        let word = if length == 0 {
            0
        } else {
            self.script[position]
        };
        let ghost turn = self.progress.served@.len();
        proof {
            if length > 0 {
                vstd::arithmetic::div_mod::lemma_mod_bound(turn as int, length as int);
                vstd::arithmetic::div_mod::lemma_add_mod_noop(turn as int, 1, length as int);
                if position + 1 < length {
                    vstd::arithmetic::div_mod::lemma_small_mod((position + 1) as nat, length as nat);
                } else {
                    vstd::arithmetic::div_mod::lemma_mod_self_0(length as int);
                }
                if length > 1 {
                    vstd::arithmetic::div_mod::lemma_small_mod(1, length as nat);
                }
            }
        }
        let next = if length == 0 || position + 1 >= length {
            0
        } else {
            position + 1
        };
        let drawn = if self.progress.drawn < usize::MAX {
            self.progress.drawn + 1
        } else {
            self.progress.drawn
        };
        self.progress = Progress {
            position: next,
            drawn,
            served: Ghost(self.progress.served@.push(word)),
        };
        word
    }
}

} // verus!
