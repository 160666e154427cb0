//! The three modes of a run, how the command line selects one, and what a
//! run in each mode comes to.

use vstd::prelude::*;
use crate::attested::{strictly_sorted, AttestedSet, Pair};
use crate::scan::{add_pairs, found_pairs, tokens_of};
use crate::store::Words;
use crate::text::same_text;
use crate::vocabulary::Vocabulary;

verus! {

/// What a run does with the pairs it finds.
#[derive(Clone, Copy, Debug, PartialEq, Eq, Structural)]
pub enum Mode {
    /// Add the pairs found to the store and have it saved.
    WriteBack,
    /// Report every pair found; the store stays as it is.
    PrintFound,
    /// Report the pairs found that the store does not hold yet; the store
    /// stays as it is.
    PrintAdditional,
}

/// The mode that an argument names, if it is one of the three flags.
pub open spec fn flag_mode(arg: Seq<char>) -> Option<Mode> {
    if arg == "--write-back"@ {
        Some(Mode::WriteBack)
    } else if arg == "--print-found"@ {
        Some(Mode::PrintFound)
    } else if arg == "--print-additional"@ {
        Some(Mode::PrintAdditional)
    } else {
        None
    }
}

/// Whether the argument at `i` is refused: it stands after the first
/// argument, is not empty and is none of the flags. The first argument may
/// be the name under which the program was called, and is passed over
/// unless it is a flag.
pub open spec fn is_unknown_at(args: Seq<Seq<char>>, i: int) -> bool {
    1 <= i < args.len() && args[i].len() > 0 && flag_mode(args[i]) is None
}

/// The mode that the arguments select: that of the last flag among them,
/// and write-back where there is none.
pub open spec fn selected_mode(args: Seq<Seq<char>>) -> Mode
    decreases args.len(),
{
    if args.len() == 0 {
        Mode::WriteBack
    } else {
        match flag_mode(args.last()) {
            Some(mode) => mode,
            None => selected_mode(args.drop_last()),
        }
    }
}

/// Why the command line was refused.
#[derive(Debug, PartialEq, Eq)]
pub enum UsageError {
    /// An argument that is none of the flags; it is held as it was given.
    UnknownArg(String),
}

/// Computes [`flag_mode`].
fn mode_of_flag(arg: &str) -> (r: Option<Mode>)
    ensures
        r == flag_mode(arg@),
{
    if same_text(arg, "--write-back") {
        Some(Mode::WriteBack)
    } else if same_text(arg, "--print-found") {
        Some(Mode::PrintFound)
    } else if same_text(arg, "--print-additional") {
        Some(Mode::PrintAdditional)
    } else {
        None
    }
}

/// Selects the mode from the command line. The first refused argument, if
/// there is one, is the error.
pub fn parse_mode(args: &Vec<String>) -> (r: Result<Mode, UsageError>)
    ensures
        match r {
            Ok(mode) => {
                &&& forall|i: int| !is_unknown_at(args.deep_view(), i)
                &&& mode == selected_mode(args.deep_view())
            },
            Err(UsageError::UnknownArg(arg)) => exists|i: int|
                {
                    &&& #[trigger] is_unknown_at(args.deep_view(), i)
                    &&& forall|j: int| 0 <= j < i ==> !is_unknown_at(args.deep_view(), j)
                    &&& arg@ == args.deep_view()[i]
                },
        },
{
    let ghost given = args.deep_view();
    let mut mode = Mode::WriteBack;
    let n: usize = args.len();
    for i in 0..n
        invariant
            n == args.len(),
            given == args.deep_view(),
            mode == selected_mode(given.take(i as int)),
            forall|j: int| 0 <= j < i ==> !is_unknown_at(given, j),
    {
        proof {
            assert(given.take(i + 1).drop_last() == given.take(i as int));
        }
        match mode_of_flag(args[i].as_str()) {
            Some(named) => {
                mode = named;
            },
            None => {
                if i > 0 && !args[i].as_str().is_empty() {
                    assert(is_unknown_at(given, i as int));
                    return Err(UsageError::UnknownArg(args[i].clone()));
                }
            },
        }
    }
    proof {
        assert(given.take(n as int) == given);
    }
    Ok(mode)
}

/// The pairs that the lines attest under the vocabulary of `words`.
pub open spec fn scan_result(words: Words, lines: Seq<Seq<char>>) -> Set<Pair> {
    found_pairs(
        tokens_of(lines),
        words.adjectives.deep_view().to_set(),
        words.nouns.deep_view().to_set(),
    )
}

/// Write-back is idempotent. Let `after` be the store that a write-back run
/// over `lines` leaves of `before`. A second write-back run over the same
/// lines then finds no pair that `after` does not hold: it adds nothing and
/// reports that nothing is new.
pub proof fn lemma_write_back_idempotent(before: Words, after: Words, lines: Seq<Seq<char>>)
    requires
        after.attested@ == before.attested@.union(scan_result(before, lines)),
        after.adjectives == before.adjectives,
        after.nouns == before.nouns,
    ensures
        scan_result(after, lines).subset_of(after.attested@),
        after.attested@.union(scan_result(after, lines)) == after.attested@,
{
    assert(after.attested@.union(scan_result(after, lines)) =~= after.attested@);
}

/// What a run came to, for the caller to carry out.
#[derive(Debug, PartialEq, Eq)]
pub enum Outcome {
    /// There is nothing to report but that no new pair was found.
    NothingNew,
    /// Write-back added `count` pairs to the store, which is to be saved.
    Added { count: usize },
    /// The pairs to print, in ascending order.
    Found { pairs: Vec<(String, String)> },
}

/// Scans `lines` under the vocabulary of the store and does with the pairs
/// found what `mode` asks.
///
/// Write-back adds them to the store, and reports how many were new, or
/// that none was. The print modes leave the store as it is: print-found
/// reports the pairs found, print-additional those among them that the
/// store does not hold, and either reports that there is none.
pub fn run(mode: Mode, words: &mut Words, lines: Vec<String>) -> (r: Outcome)
    ensures
        final(words).adjectives == old(words).adjectives,
        final(words).nouns == old(words).nouns,
        mode != Mode::WriteBack ==> *final(words) == *old(words) && !(r is Added),
        ({
            let known = old(words).attested@;
            let found = scan_result(*old(words), lines.deep_view());
            match mode {
                Mode::WriteBack => {
                    &&& final(words).attested@ == known.union(found)
                    &&& match r {
                        Outcome::NothingNew => found.subset_of(known),
                        Outcome::Added { count } => !found.subset_of(known) && count
                            == known.union(found).len() - known.len(),
                        Outcome::Found { .. } => false,
                    }
                },
                Mode::PrintFound => match r {
                    Outcome::NothingNew => found == Set::<Pair>::empty(),
                    Outcome::Added { .. } => false,
                    Outcome::Found { pairs } => {
                        &&& found != Set::<Pair>::empty()
                        &&& strictly_sorted(pairs.deep_view())
                        &&& pairs.deep_view().to_set() == found
                    },
                },
                Mode::PrintAdditional => match r {
                    Outcome::NothingNew => found.difference(known) == Set::<Pair>::empty(),
                    Outcome::Added { .. } => false,
                    Outcome::Found { pairs } => {
                        &&& found.difference(known) != Set::<Pair>::empty()
                        &&& strictly_sorted(pairs.deep_view())
                        &&& pairs.deep_view().to_set() == found.difference(known)
                    },
                },
            }
        }),
{
    let adjectives = Vocabulary::from_words(&words.adjectives);
    let nouns = Vocabulary::from_words(&words.nouns);
    let ghost known = words.attested@;
    let ghost found = scan_result(*words, lines.deep_view());
    match mode {
        Mode::WriteBack => {
            let before: usize = words.attested.len();
            add_pairs(&mut words.attested, lines, &adjectives, &nouns);
            let after: usize = words.attested.len();
            proof {
                let merged = known.union(found);
                if found.subset_of(known) {
                    assert(merged =~= known);
                } else {
                    let p = choose|p: Pair| found.contains(p) && !known.contains(p);
                    assert(known.subset_of(merged.remove(p)));
                    vstd::set_lib::lemma_len_subset(known, merged.remove(p));
                }
            }
            if after <= before {
                Outcome::NothingNew
            } else {
                Outcome::Added { count: after - before }
            }
        },
        Mode::PrintFound | Mode::PrintAdditional => {
            let mut fresh = AttestedSet::new();
            add_pairs(&mut fresh, lines, &adjectives, &nouns);
            proof {
                assert(Set::<Pair>::empty().union(found) =~= found);
            }
            if mode == Mode::PrintAdditional {
                fresh = fresh.difference(&words.attested);
            }
            if fresh.is_empty() {
                Outcome::NothingNew
            } else {
                Outcome::Found { pairs: fresh.into_vec() }
            }
        },
    }
}

} // verus!
