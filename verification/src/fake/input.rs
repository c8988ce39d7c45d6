//! What the double is told by its environment and its inputs: the marker
//! that stands for a failure, delays, and lists of ids.

use vstd::prelude::*;

use crate::text::{has_substring, parse_u64, parsed_decimal, trim, trimmed};

verus! {

/// The word that makes an input stand for "the server cannot be reached".
pub const FAIL_MARKER: &'static str = "fail";

/// True for the inputs that stand in for "the server cannot be reached":
/// those containing `fail`.
pub fn should_fail(value: &str) -> (fails: bool)
    ensures
        fails == has_substring(value@, FAIL_MARKER@),
{
    crate::text::contains(value, FAIL_MARKER)
}

/// A number as `str::parse::<u64>` reads it, when it reads one.
pub open spec fn read_u64(s: Seq<char>) -> Option<u64> {
    match parsed_decimal(s) {
        Some(n) if n <= u64::MAX => Some(n as u64),
        _ => None,
    }
}

/// A reply delay in milliseconds, from a variable's value, or `default`
/// when it is unset or not a number.
pub fn delay_or(value: Option<&str>, default: u64) -> (millis: u64)
    ensures
        millis == (match value {
            Some(v) => match read_u64(v@) {
                Some(n) => n,
                None => default,
            },
            None => default,
        }),
{
    match value {
        Some(v) => match parse_u64(v) {
            Some(n) => n,
            None => default,
        },
        None => default,
    }
}

/// A reply delay in milliseconds, from a variable's value, which lets a
/// test fix the order in which two replies land: none when it is unset.
pub fn delay(value: Option<&str>) -> (millis: u64)
    ensures
        millis == (match value {
            Some(v) => match read_u64(v@) {
                Some(n) => n,
                None => 0,
            },
            None => 0,
        }),
{
    delay_or(value, 0)
}

/// `s` split at every comma, as `str::split(',')` splits it: one more
/// piece than there are commas.
pub open spec fn comma_pieces(s: Seq<char>) -> Seq<Seq<char>>
    decreases s.len(),
{
    if s.len() == 0 {
        seq![Seq::empty()]
    } else {
        let before = comma_pieces(s.drop_last());
        if s.last() == ',' {
            before.push(Seq::empty())
        } else {
            before.update(before.len() - 1, before.last().push(s.last()))
        }
    }
}

proof fn lemma_comma_pieces_nonempty(s: Seq<char>)
    ensures
        comma_pieces(s).len() >= 1,
    decreases s.len(),
{
    if s.len() > 0 {
        lemma_comma_pieces_nonempty(s.drop_last());
    }
}

/// The pieces that read as numbers once trimmed, in order.
pub open spec fn numbers_in(pieces: Seq<Seq<char>>) -> Seq<u64>
    decreases pieces.len(),
{
    if pieces.len() == 0 {
        Seq::empty()
    } else {
        let before = numbers_in(pieces.drop_last());
        match read_u64(trimmed(pieces.last())) {
            Some(n) => before.push(n),
            None => before,
        }
    }
}

/// The ids named in a variable's value, comma-separated: every piece that
/// reads as a number once trimmed. Nothing when the variable is unset.
pub fn env_ids(value: Option<&str>) -> (ids: Vec<u64>)
    ensures
        ids@ == (match value {
            Some(v) => numbers_in(comma_pieces(v@)),
            None => Seq::empty(),
        }),
{
    let s = match value {
        Some(s) => s,
        None => return Vec::new(),
    };
    let n = s.unicode_len();
    let mut ids: Vec<u64> = Vec::new();
    let mut start: usize = 0;
    let mut i: usize = 0;
    proof {
        assert(s@.subrange(0, 0) =~= Seq::<char>::empty());
        assert(comma_pieces(Seq::<char>::empty()).drop_last() =~= Seq::<Seq<char>>::empty());
        assert(s@.subrange(0, 0) =~= s@.subrange(0, 0));
    }
    while i < n
        invariant
            n == s@.len(),
            start <= i <= n,
            comma_pieces(s@.subrange(0, i as int)).len() >= 1,
            comma_pieces(s@.subrange(0, i as int)).last() == s@.subrange(start as int, i as int),
            ids@ == numbers_in(comma_pieces(s@.subrange(0, i as int)).drop_last()),
        decreases n - i,
    {
        let ghost before = comma_pieces(s@.subrange(0, i as int));
        proof {
            assert(s@.subrange(0, i + 1).drop_last() =~= s@.subrange(0, i as int));
            assert(s@.subrange(0, i + 1).last() == s@[i as int]);
        }
        if s.get_char(i) == ',' {
            let piece = trim(s.substring_char(start, i));
            if let Some(id) = parse_u64(piece.as_str()) {
                ids.push(id);
            }
            proof {
                let after = comma_pieces(s@.subrange(0, i + 1));
                assert(after == before.push(Seq::empty()));
                assert(after.drop_last() =~= before);
                assert(before.drop_last() =~= before.subrange(0, before.len() - 1));
            }
            start = i + 1;
            proof {
                assert(s@.subrange(start as int, i + 1) =~= Seq::<char>::empty());
            }
        } else {
            proof {
                let after = comma_pieces(s@.subrange(0, i + 1));
                assert(after.drop_last() =~= before.drop_last());
                assert(s@.subrange(start as int, i + 1) =~= s@.subrange(start as int, i as int).push(
                    s@[i as int],
                ));
            }
        }
        i = i + 1;
    }
    let piece = trim(s.substring_char(start, n));
    if let Some(id) = parse_u64(piece.as_str()) {
        ids.push(id);
    }
    proof {
        assert(s@.subrange(0, n as int) =~= s@);
        let all = comma_pieces(s@);
        assert(all.drop_last().push(all.last()) =~= all);
    }
    ids
}

} // verus!
