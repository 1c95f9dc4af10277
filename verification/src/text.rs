use vstd::prelude::*;

verus! {

/// Collects the characters of a string slice into a vector, in order.
pub fn chars_of(s: &str) -> (r: Vec<char>)
    ensures
        r@ == s@,
{
    let n = s.unicode_len();
    let mut out: Vec<char> = Vec::new();
    let mut i: usize = 0;
    while i < n
        invariant
            n == s@.len(),
            i <= n,
            out@ == s@.take(i as int),
        decreases n - i,
    {
        out.push(s.get_char(i));
        i = i + 1;
        proof {
            assert(s@.take(i as int) =~= s@.take(i - 1).push(s@[i - 1]));
        }
    }
    proof {
        assert(s@.take(n as int) =~= s@);
    }
    out
}

/// Relies on `core::iter::Iterator::collect` for `String`: it builds the
/// string holding exactly the characters yielded by the vector's iterator,
/// in order.
#[verifier::external_body]
pub fn string_of(v: Vec<char>) -> (r: String)
    ensures
        r@ == v@,
{
    v.into_iter().collect()
}

/// Appends every character of `s` to `out`, in order.
pub fn push_str_chars(out: &mut Vec<char>, s: &str)
    ensures
        final(out)@ == old(out)@ + s@,
{
    let n = s.unicode_len();
    let mut i: usize = 0;
    while i < n
        invariant
            n == s@.len(),
            i <= n,
            out@ == old(out)@ + s@.take(i as int),
        decreases n - i,
    {
        out.push(s.get_char(i));
        i = i + 1;
        proof {
            assert(old(out)@ + s@.take(i as int) =~= (old(out)@ + s@.take(i - 1)).push(s@[i - 1]));
        }
    }
    proof {
        assert(s@.take(n as int) =~= s@);
    }
}

/// A character that JSON treats as insignificant between tokens.
pub open spec fn is_ws_char(c: char) -> bool {
    c == ' ' || c == '\t' || c == '\n' || c == '\r'
}

/// The first position at or after `pos` that does not hold insignificant
/// whitespace, or the end of the text.
pub open spec fn spec_skip_ws(t: Seq<char>, pos: int) -> int
    decreases t.len() - pos,
{
    if 0 <= pos < t.len() && is_ws_char(t[pos]) {
        spec_skip_ws(t, pos + 1)
    } else {
        pos
    }
}

/// What `spec_skip_ws` lands on: everything before it is whitespace, and it
/// stops at the end or on something else.
pub proof fn lemma_skip_ws_props(t: Seq<char>, pos: int)
    requires
        0 <= pos <= t.len(),
    ensures
        pos <= spec_skip_ws(t, pos) <= t.len(),
        forall|i: int| pos <= i < spec_skip_ws(t, pos) ==> is_ws_char(t[i]),
        spec_skip_ws(t, pos) == t.len() || !is_ws_char(t[spec_skip_ws(t, pos)]),
    decreases t.len() - pos,
{
    if pos < t.len() && is_ws_char(t[pos]) {
        lemma_skip_ws_props(t, pos + 1);
    }
}

/// A run of whitespace followed by the end or something else is exactly
/// what `spec_skip_ws` passes over.
pub proof fn lemma_skip_ws_to(t: Seq<char>, pos: int, stop: int)
    requires
        0 <= pos <= stop <= t.len(),
        forall|i: int| pos <= i < stop ==> is_ws_char(t[i]),
        stop == t.len() || !is_ws_char(t[stop]),
    ensures
        spec_skip_ws(t, pos) == stop,
    decreases stop - pos,
{
    if pos < stop {
        lemma_skip_ws_to(t, pos + 1, stop);
    }
}

/// Moves past insignificant whitespace.
pub fn skip_ws(input: &Vec<char>, pos: usize) -> (r: usize)
    requires
        pos <= input@.len(),
    ensures
        r == spec_skip_ws(input@, pos as int),
        pos <= r <= input@.len(),
        r == input@.len() || !is_ws_char(input@[r as int]),
{
    let ilen = input.len();
    let mut cur: usize = pos;
    while cur < ilen && (input[cur] == ' ' || input[cur] == '\t' || input[cur] == '\n' || input[cur]
        == '\r')
        invariant
            ilen == input@.len(),
            pos <= cur <= ilen,
            spec_skip_ws(input@, pos as int) == spec_skip_ws(input@, cur as int),
        decreases ilen - cur,
    {
        cur = cur + 1;
    }
    proof {
        assert(spec_skip_ws(input@, cur as int) == cur);
    }
    cur
}

/// Whether `lit` occurs in `t` starting exactly at position `pos`.
pub open spec fn lit_at(t: Seq<char>, pos: int, lit: Seq<char>) -> bool {
    &&& 0 <= pos
    &&& pos + lit.len() <= t.len()
    &&& t.subrange(pos, pos + lit.len()) == lit
}

/// Checks whether the literal `lit` stands in `input` at position `pos`;
/// on success returns the position just past it.
pub fn expect_lit(input: &Vec<char>, pos: usize, lit: &str) -> (r: Option<usize>)
    requires
        pos <= input@.len(),
    ensures
        match r {
            Some(p) => lit_at(input@, pos as int, lit@) && p == pos + lit@.len(),
            None => !lit_at(input@, pos as int, lit@),
        },
{
    let m = lit.unicode_len();
    let ilen = input.len();
    if ilen - pos < m {
        return None;
    }
    let mut i: usize = 0;
    while i < m
        invariant
            m == lit@.len(),
            ilen == input@.len(),
            pos + m <= ilen,
            i <= m,
            input@.subrange(pos as int, pos + i) == lit@.take(i as int),
        decreases m - i,
    {
        if input[pos + i] != lit.get_char(i) {
            proof {
                if lit_at(input@, pos as int, lit@) {
                    assert(input@.subrange(pos as int, pos + lit@.len())[i as int] == lit@[i as int]);
                }
            }
            return None;
        }
        i = i + 1;
        proof {
            assert(input@.subrange(pos as int, pos + i) =~= input@.subrange(pos as int, pos + (i - 1)).push(input@[pos + (i - 1)]));
            assert(lit@.take(i as int) =~= lit@.take(i - 1).push(lit@[i - 1]));
        }
    }
    proof {
        assert(lit@.take(m as int) =~= lit@);
    }
    Some(pos + m)
}

} // verus!
