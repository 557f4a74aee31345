//! The batch parser: the persisted file contents, one record per line, read
//! back into an ordered sequence of records, stopping at the first invalid
//! line.

use vstd::prelude::*;
use crate::record::{PreachingDay, DecodeError, decoded, decode_chars};
use crate::text::{trim_spec, trim_chars, split_at_seps, split_char, str_chars, lemma_split_len};

verus! {

/// The lines of `s`: the pieces between newline characters, a trailing
/// empty piece dropped, as `str::lines` yields them. A carriage return
/// left at a line's end is taken off later by the per-line trim.
pub open spec fn split_lines_spec(s: Seq<char>) -> Seq<Seq<char>> {
    let ps = split_at_seps(s, '\n');
    if ps.len() > 0 && ps.last().len() == 0 {
        ps.drop_last()
    } else {
        ps
    }
}

/// What parsing a sequence of lines yields: every line trimmed and decoded,
/// in order; all the records when every line decodes, otherwise the error
/// of the first invalid line, the rest never looked at.
pub open spec fn parse_all_spec(lines: Seq<Seq<char>>) -> Result<Seq<PreachingDay>, DecodeError>
    decreases lines.len(),
{
    if lines.len() == 0 {
        Ok(Seq::empty())
    } else {
        match decoded(trim_spec(lines[0])) {
            Err(e) => Err(e),
            Ok(r) => match parse_all_spec(lines.drop_first()) {
                Err(e) => Err(e),
                Ok(rest) => Ok(seq![r] + rest),
            },
        }
    }
}

/// Fail-fast: when every line before position `k` decodes and line `k`
/// does not, the batch result is line `k`'s error — the lines after `k`
/// are never consulted.
pub proof fn lemma_parse_all_fail_fast(lines: Seq<Seq<char>>, k: int)
    requires
        0 <= k < lines.len(),
        forall|j: int| 0 <= j < k ==> decoded(trim_spec(lines[j])) is Ok,
        decoded(trim_spec(lines[k])) is Err,
    ensures
        parse_all_spec(lines) == Err::<Seq<PreachingDay>, DecodeError>(
            decoded(trim_spec(lines[k]))->Err_0,
        ),
    decreases k,
{
    if k == 0 {
    } else {
        let rest = lines.drop_first();
        assert(forall|j: int| 0 <= j < k - 1 ==> #[trigger] rest[j] == lines[j + 1]);
        assert(rest[k - 1] == lines[k]);
        lemma_parse_all_fail_fast(rest, k - 1);
    }
}

/// When every line decodes, the batch result holds every record, in the
/// order of the lines.
pub proof fn lemma_parse_all_ok(lines: Seq<Seq<char>>)
    requires
        forall|j: int| 0 <= j < lines.len() ==> decoded(trim_spec(lines[j])) is Ok,
    ensures
        parse_all_spec(lines) is Ok,
        parse_all_spec(lines)->Ok_0.len() == lines.len(),
        forall|j: int|
            0 <= j < lines.len() ==> parse_all_spec(lines)->Ok_0[j] == decoded(
                trim_spec(lines[j]),
            )->Ok_0,
    decreases lines.len(),
{
    if lines.len() == 0 {
    } else {
        let rest = lines.drop_first();
        assert(forall|j: int| 0 <= j < rest.len() ==> #[trigger] rest[j] == lines[j + 1]);
        lemma_parse_all_ok(rest);
    }
}

/// Splits the persisted file contents into lines and decodes each into a
/// record, in order, failing fast on the first invalid line.
pub fn parse_lines_to_preaching_days(lines: String) -> (r: Result<Vec<PreachingDay>, DecodeError>)
    ensures
        ({
            let p = parse_all_spec(split_lines_spec(lines@));
            match r {
                Ok(v) => p == Ok::<Seq<PreachingDay>, DecodeError>(v@),
                Err(e) => p == Err::<Seq<PreachingDay>, DecodeError>(e),
            }
        }),
{
    let ghost el = split_lines_spec(lines@);
    let chars = str_chars(lines.as_str());
    let mut pieces = split_char(&chars, '\n');
    proof {
        lemma_split_len(lines@, '\n');
    }
    let last_len = pieces[pieces.len() - 1].len();
    if last_len == 0 {
        let ghost old_pieces = pieces.deep_view();
        pieces.pop();
        proof {
            assert(pieces.deep_view() =~~= old_pieces.drop_last());
        }
    }
    assert(pieces.deep_view() == el);
    let mut out: Vec<PreachingDay> = Vec::new();
    let mut i: usize = 0;
    proof {
        assert(el.skip(0) =~= el);
    }
    while i < pieces.len()
        invariant
            i <= pieces@.len(),
            el == split_lines_spec(lines@),
            pieces.deep_view() == el,
            parse_all_spec(el) == (match parse_all_spec(el.skip(i as int)) {
                Ok(rest) => Ok::<Seq<PreachingDay>, DecodeError>(out@ + rest),
                Err(e) => Err::<Seq<PreachingDay>, DecodeError>(e),
            }),
        decreases pieces@.len() - i,
    {
        proof {
            assert(pieces@[i as int].deep_view() =~= pieces@[i as int]@);
            assert(el.skip(i as int)[0] == el[i as int]);
            assert(el.skip(i as int).drop_first() =~= el.skip(i + 1));
        }
        let t = trim_chars(&pieces[i]);
        match decode_chars(&t) {
            Err(e) => {
                proof {
                    assert(t@ == trim_spec(el[i as int]));
                    assert(parse_all_spec(el.skip(i as int)) == Err::<
                        Seq<PreachingDay>,
                        DecodeError,
                    >(e));
                    assert(parse_all_spec(el) == Err::<Seq<PreachingDay>, DecodeError>(e));
                }
                return Err(e);
            },
            Ok(rec) => {
                let ghost old_out = out@;
                out.push(rec);
                proof {
                    if let Ok(rest) = parse_all_spec(el.skip(i + 1)) {
                        assert(old_out + (seq![rec] + rest) =~= out@ + rest);
                    }
                }
            },
        }
        i += 1;
    }
    proof {
        assert(el.skip(el.len() as int) =~= Seq::<Seq<char>>::empty());
        assert(out@ + Seq::<PreachingDay>::empty() =~= out@);
    }
    Ok(out)
}

} // verus!
