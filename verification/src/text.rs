//! Character-sequence utilities for the record codec: whitespace trimming,
//! splitting on a separator character, and conversions between `str`/`String`
//! and `Vec<char>`.

use vstd::prelude::*;
use vstd::string::StrSliceExecFns;

verus! {

/// Whether `c` has the Unicode `White_Space` property, the set that
/// `str::trim` removes.
pub open spec fn is_space(c: char) -> bool {
    ||| c as u32 == 0x9
    ||| c as u32 == 0xa
    ||| c as u32 == 0xb
    ||| c as u32 == 0xc
    ||| c as u32 == 0xd
    ||| c as u32 == 0x20
    ||| c as u32 == 0x85
    ||| c as u32 == 0xa0
    ||| c as u32 == 0x1680
    ||| (0x2000 <= c as u32 && c as u32 <= 0x200a)
    ||| c as u32 == 0x2028
    ||| c as u32 == 0x2029
    ||| c as u32 == 0x202f
    ||| c as u32 == 0x205f
    ||| c as u32 == 0x3000
}

fn is_space_char(c: char) -> (b: bool)
    ensures
        b == is_space(c),
{
    let n = c as u32;
    n == 0x9 || n == 0xa || n == 0xb || n == 0xc || n == 0xd || n == 0x20 || n == 0x85
        || n == 0xa0 || n == 0x1680 || (0x2000 <= n && n <= 0x200a) || n == 0x2028 || n == 0x2029
        || n == 0x202f || n == 0x205f || n == 0x3000
}

/// `s` without its leading whitespace.
pub open spec fn trim_start_spec(s: Seq<char>) -> Seq<char>
    decreases s.len(),
{
    if s.len() > 0 && is_space(s[0]) {
        trim_start_spec(s.drop_first())
    } else {
        s
    }
}

/// `s` without its trailing whitespace.
pub open spec fn trim_end_spec(s: Seq<char>) -> Seq<char>
    decreases s.len(),
{
    if s.len() > 0 && is_space(s.last()) {
        trim_end_spec(s.drop_last())
    } else {
        s
    }
}

/// `s` without leading and trailing whitespace, as `str::trim` leaves it.
pub open spec fn trim_spec(s: Seq<char>) -> Seq<char> {
    trim_end_spec(trim_start_spec(s))
}

proof fn lemma_trim_start_skip(s: Seq<char>, i: int)
    requires
        0 <= i <= s.len(),
        forall|k: int| 0 <= k < i ==> is_space(s[k]),
        i == s.len() || !is_space(s[i]),
    ensures
        trim_start_spec(s) == s.skip(i),
    decreases i,
{
    if i == 0 {
        assert(s.skip(0) =~= s);
    } else {
        assert(is_space(s[0]));
        let t = s.drop_first();
        assert(forall|k: int| 0 <= k < i - 1 ==> is_space(#[trigger] t[k]));
        lemma_trim_start_skip(t, i - 1);
        assert(t.skip(i - 1) =~= s.skip(i));
    }
}

proof fn lemma_trim_end_take(s: Seq<char>, j: int)
    requires
        0 <= j <= s.len(),
        forall|k: int| j <= k < s.len() ==> is_space(s[k]),
        j == 0 || !is_space(s[j - 1]),
    ensures
        trim_end_spec(s) == s.take(j),
    decreases s.len(),
{
    if j == s.len() {
        if s.len() > 0 {
            assert(!is_space(s.last()));
        }
        assert(s.take(j) =~= s);
    } else {
        assert(is_space(s.last()));
        let t = s.drop_last();
        lemma_trim_end_take(t, j);
        assert(t.take(j) =~= s.take(j));
    }
}

/// Trimming leaves a sequence unchanged when neither end holds whitespace.
pub proof fn lemma_trim_clean(s: Seq<char>)
    requires
        s.len() > 0 ==> !is_space(s[0]) && !is_space(s.last()),
    ensures
        trim_spec(s) == s,
{
    lemma_trim_start_skip(s, 0);
    assert(s.skip(0) =~= s);
    lemma_trim_end_take(s, s.len() as int);
    assert(s.take(s.len() as int) =~= s);
}

/// Removes leading and trailing whitespace.
pub fn trim_chars(v: &Vec<char>) -> (r: Vec<char>)
    ensures
        r@ == trim_spec(v@),
{
    let mut start: usize = 0;
    while start < v.len() && is_space_char(v[start])
        invariant
            start <= v.len(),
            forall|k: int| 0 <= k < start ==> is_space(v@[k]),
        decreases v.len() - start,
    {
        start += 1;
    }
    let mut end: usize = v.len();
    while end > start && is_space_char(v[end - 1])
        invariant
            start <= end <= v.len(),
            forall|k: int| 0 <= k < start ==> is_space(v@[k]),
            forall|k: int| end <= k < v.len() ==> is_space(v@[k]),
        decreases end,
    {
        end -= 1;
    }
    let mut r: Vec<char> = Vec::new();
    let mut i: usize = start;
    while i < end
        invariant
            start <= i <= end <= v.len(),
            r@ == v@.subrange(start as int, i as int),
        decreases end - i,
    {
        r.push(v[i]);
        assert(r@ =~= v@.subrange(start as int, i + 1));
        i += 1;
    }
    proof {
        lemma_trim_start_skip(v@, start as int);
        let t = v@.skip(start as int);
        assert forall|k: int| end - start <= k < t.len() implies is_space(t[k]) by {
            assert(t[k] == v@[k + start as int]);
        }
        if end > start {
            assert(t[end - start - 1] == v@[end - 1]);
        }
        lemma_trim_end_take(t, end - start);
        assert(t.take(end - start) =~= v@.subrange(start as int, end as int));
    }
    r
}

/// The pieces of `s` between occurrences of `sep`, in order; always at least
/// one piece, and empty pieces kept, as `str::split` yields them.
pub open spec fn split_at_seps(s: Seq<char>, sep: char) -> Seq<Seq<char>>
    decreases s.len(),
{
    if s.len() == 0 {
        seq![Seq::<char>::empty()]
    } else if s[0] == sep {
        seq![Seq::<char>::empty()] + split_at_seps(s.drop_first(), sep)
    } else {
        prepend_first(seq![s[0]], split_at_seps(s.drop_first(), sep))
    }
}

/// `ss` with `p` prepended onto its first piece.
pub open spec fn prepend_first(p: Seq<char>, ss: Seq<Seq<char>>) -> Seq<Seq<char>>
    recommends
        ss.len() > 0,
{
    seq![p + ss[0]] + ss.drop_first()
}

pub proof fn lemma_split_len(s: Seq<char>, sep: char)
    ensures
        split_at_seps(s, sep).len() >= 1,
    decreases s.len(),
{
    if s.len() == 0 {
    } else {
        lemma_split_len(s.drop_first(), sep);
    }
}

/// A sequence without the separator splits into itself alone.
pub proof fn lemma_split_no_sep(s: Seq<char>, sep: char)
    requires
        forall|k: int| 0 <= k < s.len() ==> s[k] != sep,
    ensures
        split_at_seps(s, sep) == seq![s],
    decreases s.len(),
{
    if s.len() == 0 {
        assert(s =~= Seq::<char>::empty());
        assert(split_at_seps(s, sep) =~= seq![s]);
    } else {
        let t = s.drop_first();
        assert(forall|k: int| 0 <= k < t.len() ==> #[trigger] t[k] != sep);
        lemma_split_no_sep(t, sep);
        assert(seq![s[0]] + t =~= s);
        assert(split_at_seps(s, sep) =~= seq![s]) by {
            assert(prepend_first(seq![s[0]], seq![t]) =~= seq![seq![s[0]] + t]);
        }
    }
}

/// Splitting starts with the separator-free prefix before the first
/// separator.
pub proof fn lemma_split_prefix(a: Seq<char>, b: Seq<char>, sep: char)
    requires
        forall|k: int| 0 <= k < a.len() ==> a[k] != sep,
    ensures
        split_at_seps(a + seq![sep] + b, sep) == seq![a] + split_at_seps(b, sep),
    decreases a.len(),
{
    let s = a + seq![sep] + b;
    if a.len() == 0 {
        assert(s[0] == sep);
        assert(s.drop_first() =~= b);
        assert(a =~= Seq::<char>::empty());
        assert(split_at_seps(s, sep) =~= seq![a] + split_at_seps(b, sep));
    } else {
        let a1 = a.drop_first();
        assert(forall|k: int| 0 <= k < a1.len() ==> #[trigger] a1[k] != sep);
        lemma_split_prefix(a1, b, sep);
        assert(s[0] == a[0]);
        assert(s[0] != sep);
        assert(s.drop_first() =~= a1 + seq![sep] + b);
        lemma_split_len(b, sep);
        assert(split_at_seps(s, sep) == prepend_first(
            seq![a[0]],
            seq![a1] + split_at_seps(b, sep),
        ));
        assert(prepend_first(seq![a[0]], seq![a1] + split_at_seps(b, sep)) =~= seq![a]
            + split_at_seps(b, sep)) by {
            assert((seq![a1] + split_at_seps(b, sep))[0] == a1);
            assert(seq![a[0]] + a1 =~= a);
            assert((seq![a1] + split_at_seps(b, sep)).drop_first() =~= split_at_seps(b, sep));
        }
    }
}

proof fn lemma_prepend_nil(ss: Seq<Seq<char>>)
    requires
        ss.len() > 0,
    ensures
        prepend_first(Seq::<char>::empty(), ss) == ss,
{
    assert(Seq::<char>::empty() + ss[0] =~= ss[0]);
    assert(prepend_first(Seq::<char>::empty(), ss) =~= ss);
}

proof fn lemma_prepend_assoc(a: Seq<char>, b: Seq<char>, ss: Seq<Seq<char>>)
    requires
        ss.len() > 0,
    ensures
        prepend_first(a, prepend_first(b, ss)) == prepend_first(a + b, ss),
{
    assert(a + (b + ss[0]) =~= (a + b) + ss[0]);
    assert(prepend_first(a, prepend_first(b, ss)) =~= prepend_first(a + b, ss));
}

/// Splits `v` on every occurrence of `sep`.
pub fn split_char(v: &Vec<char>, sep: char) -> (r: Vec<Vec<char>>)
    ensures
        r.deep_view() == split_at_seps(v@, sep),
{
    let ghost whole = split_at_seps(v@, sep);
    let mut r: Vec<Vec<char>> = Vec::new();
    let mut cur: Vec<char> = Vec::new();
    let mut i: usize = 0;
    proof {
        lemma_split_len(v@, sep);
        assert(v@.skip(0) =~= v@);
        lemma_prepend_nil(whole);
        assert(r.deep_view() + prepend_first(cur@, split_at_seps(v@.skip(0), sep)) =~= whole);
    }
    while i < v.len()
        invariant
            i <= v.len(),
            whole == split_at_seps(v@, sep),
            whole == r.deep_view() + prepend_first(cur@, split_at_seps(v@.skip(i as int), sep)),
        decreases v.len() - i,
    {
        let ghost rest = split_at_seps(v@.skip(i as int), sep);
        let ghost rest1 = split_at_seps(v@.skip(i + 1), sep);
        proof {
            lemma_split_len(v@.skip(i + 1), sep);
            assert(v@.skip(i as int)[0] == v@[i as int]);
            assert(v@.skip(i as int).drop_first() =~= v@.skip(i + 1));
        }
        if v[i] == sep {
            proof {
                assert(rest =~= seq![Seq::<char>::empty()] + rest1);
                assert(prepend_first(cur@, rest) =~= seq![cur@] + rest1) by {
                    assert(cur@ + Seq::<char>::empty() =~= cur@);
                    assert((seq![Seq::<char>::empty()] + rest1).drop_first() =~= rest1);
                }
                lemma_prepend_nil(rest1);
            }
            let ghost old_r = r.deep_view();
            let ghost cur_v = cur@;
            r.push(cur);
            cur = Vec::new();
            proof {
                assert(r.deep_view() =~~= old_r + seq![cur_v]);
                assert(r.deep_view() + prepend_first(cur@, rest1) =~= whole);
            }
        } else {
            proof {
                assert(rest =~= prepend_first(seq![v@[i as int]], rest1));
                lemma_prepend_assoc(cur@, seq![v@[i as int]], rest1);
                assert(cur@ + seq![v@[i as int]] =~= cur@.push(v@[i as int]));
            }
            cur.push(v[i]);
            assert(r.deep_view() + prepend_first(cur@, rest1) =~= whole);
        }
        i += 1;
    }
    proof {
        assert(v@.skip(v@.len() as int) =~= Seq::<char>::empty());
        assert(prepend_first(cur@, seq![Seq::<char>::empty()]) =~= seq![cur@]) by {
            assert(cur@ + Seq::<char>::empty() =~= cur@);
        }
    }
    let ghost old_r = r.deep_view();
    let ghost cur_v = cur@;
    r.push(cur);
    proof {
        assert(r.deep_view() =~~= old_r + seq![cur_v]);
        assert(r.deep_view() =~= whole);
    }
    r
}

/// The characters of `s`, in order.
pub fn str_chars(s: &str) -> (r: Vec<char>)
    ensures
        r@ == s@,
{
    let n = s.unicode_len();
    let mut r: Vec<char> = Vec::new();
    let mut i: usize = 0;
    while i < n
        invariant
            i <= n,
            n == s@.len(),
            r@ == s@.take(i as int),
        decreases n - i,
    {
        r.push(s.get_char(i));
        assert(r@ =~= s@.take(i + 1));
        i += 1;
    }
    assert(s@.take(n as int) =~= s@);
    r
}

/// Appends the characters of `src` to `dst`.
pub fn append_chars(dst: &mut Vec<char>, src: &Vec<char>)
    ensures
        final(dst)@ == old(dst)@ + src@,
{
    assert(old(dst)@ + src@.take(0) =~= old(dst)@);
    let mut i: usize = 0;
    while i < src.len()
        invariant
            i <= src@.len(),
            dst@ == old(dst)@ + src@.take(i as int),
        decreases src@.len() - i,
    {
        dst.push(src[i]);
        assert(dst@ =~= old(dst)@ + src@.take(i + 1));
        i += 1;
    }
    assert(src@.take(src@.len() as int) =~= src@);
}

/// Relies on `String::push`: appends one character to the end of the string.
pub assume_specification[ String::push ](s: &mut String, ch: char)
    ensures
        final(s)@ == old(s)@.push(ch),
;

/// A `String` holding exactly the characters of `v`.
pub fn chars_string(v: &Vec<char>) -> (r: String)
    ensures
        r@ == v@,
{
    let mut r = String::new();
    let mut i: usize = 0;
    while i < v.len()
        invariant
            i <= v.len(),
            r@ == v@.take(i as int),
        decreases v.len() - i,
    {
        r.push(v[i]);
        assert(r@ =~= v@.take(i + 1));
        i += 1;
    }
    assert(v@.take(v.len() as int) =~= v@);
    r
}

} // verus!
