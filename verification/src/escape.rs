use vstd::prelude::*;

verus! {

/// The lower-case hexadecimal digit for a value below sixteen.
pub open spec fn hex_char(d: int) -> char {
    if d == 0 { '0' }
    else if d == 1 { '1' }
    else if d == 2 { '2' }
    else if d == 3 { '3' }
    else if d == 4 { '4' }
    else if d == 5 { '5' }
    else if d == 6 { '6' }
    else if d == 7 { '7' }
    else if d == 8 { '8' }
    else if d == 9 { '9' }
    else if d == 10 { 'a' }
    else if d == 11 { 'b' }
    else if d == 12 { 'c' }
    else if d == 13 { 'd' }
    else if d == 14 { 'e' }
    else { 'f' }
}

/// The value of a lower-case hexadecimal digit, or -1 for any other character.
pub open spec fn hex_val(c: char) -> int {
    if c == '0' { 0 }
    else if c == '1' { 1 }
    else if c == '2' { 2 }
    else if c == '3' { 3 }
    else if c == '4' { 4 }
    else if c == '5' { 5 }
    else if c == '6' { 6 }
    else if c == '7' { 7 }
    else if c == '8' { 8 }
    else if c == '9' { 9 }
    else if c == 'a' { 10 }
    else if c == 'b' { 11 }
    else if c == 'c' { 12 }
    else if c == 'd' { 13 }
    else if c == 'e' { 14 }
    else if c == 'f' { 15 }
    else { -1 }
}

/// A character that stands for itself inside a quoted JSON string:
/// not a quote, not a backslash, not a control character.
pub open spec fn is_plain(c: char) -> bool {
    c != '"' && c != '\\' && (c as int) >= 32
}

/// How one character is written inside a quoted JSON string.
pub open spec fn escaped_char(c: char) -> Seq<char> {
    if c == '"' {
        seq!['\\', '"']
    } else if c == '\\' {
        seq!['\\', '\\']
    } else if (c as int) < 32 {
        seq!['\\', 'u', '0', '0', hex_char(c as int / 16), hex_char(c as int % 16)]
    } else {
        seq![c]
    }
}

/// How a whole text is written inside a quoted JSON string.
pub open spec fn escape(s: Seq<char>) -> Seq<char>
    decreases s.len(),
{
    if s.len() == 0 {
        Seq::empty()
    } else {
        escaped_char(s[0]) + escape(s.skip(1))
    }
}

pub proof fn lemma_escape_append(a: Seq<char>, b: Seq<char>)
    ensures
        escape(a + b) == escape(a) + escape(b),
    decreases a.len(),
{
    if a.len() == 0 {
        assert(a + b =~= b);
        assert(escape(a) + escape(b) =~= escape(b));
    } else {
        assert((a + b).skip(1) =~= a.skip(1) + b);
        lemma_escape_append(a.skip(1), b);
        assert((a + b).len() > 0);
        assert((a + b)[0] == a[0]);
        assert(escape(a + b) == escaped_char(a[0]) + (escape(a.skip(1)) + escape(b)));
        assert(escaped_char(a[0]) + (escape(a.skip(1)) + escape(b)) =~= (escaped_char(a[0]) + escape(a.skip(1))) + escape(b));
    }
}

pub proof fn lemma_escape_snoc(s: Seq<char>, c: char)
    ensures
        escape(s.push(c)) == escape(s) + escaped_char(c),
{
    assert(s.push(c) =~= s + seq![c]);
    lemma_escape_append(s, seq![c]);
    assert(seq![c].len() == 1);
    assert(seq![c][0] == c);
    assert(seq![c].skip(1) =~= Seq::<char>::empty());
    assert(escape(seq![c]) == escaped_char(c) + escape(Seq::<char>::empty()));
    assert(escape(Seq::<char>::empty()) == Seq::<char>::empty());
    assert(escaped_char(c) + Seq::<char>::empty() =~= escaped_char(c));
}

/// Every character's code lies in the Unicode scalar range.
pub proof fn lemma_char_bounds(c: char)
    ensures
        0 <= c as int <= 0x10FFFF,
{
    assert(0 <= (c as char) as int <= 0x10FFFF);
}

/// The first character of an escaped unit is never a quote, and it is a
/// backslash exactly when the unit's character is not plain.
pub proof fn lemma_escaped_char_head(c: char)
    ensures
        escaped_char(c).len() >= 1,
        escaped_char(c)[0] != '"',
        is_plain(c) ==> escaped_char(c) == seq![c],
        !is_plain(c) ==> escaped_char(c)[0] == '\\' && escaped_char(c).len() >= 2,
        !is_plain(c) && (c as int) >= 32 ==> escaped_char(c).len() == 2 && (escaped_char(c)[1] == '"' || escaped_char(c)[1] == '\\'),
        (c as int) < 32 ==> escaped_char(c) == seq!['\\', 'u', '0', '0', hex_char(c as int / 16), hex_char(c as int % 16)],
{
    assert(c as int >= 0) by {
        assert((c as char) as int >= 0);
    }
}

/// The lower-case hexadecimal digits written for a control character
/// determine it: reading them back gives the character's value.
pub proof fn lemma_hex_round_trip(d: int)
    requires
        0 <= d < 16,
    ensures
        hex_val(hex_char(d)) == d,
{
}

/// A character recognised as a hexadecimal digit is the digit of its value.
pub proof fn lemma_hex_char_val(c: char)
    requires
        hex_val(c) >= 0,
    ensures
        hex_char(hex_val(c)) == c,
{
}

/// Appends the lower-case hexadecimal digit of `d` to `out`.
fn push_hex(out: &mut Vec<char>, d: u32)
    requires
        d < 16,
    ensures
        final(out)@ == old(out)@.push(hex_char(d as int)),
{
    if d == 0 { out.push('0') }
    else if d == 1 { out.push('1') }
    else if d == 2 { out.push('2') }
    else if d == 3 { out.push('3') }
    else if d == 4 { out.push('4') }
    else if d == 5 { out.push('5') }
    else if d == 6 { out.push('6') }
    else if d == 7 { out.push('7') }
    else if d == 8 { out.push('8') }
    else if d == 9 { out.push('9') }
    else if d == 10 { out.push('a') }
    else if d == 11 { out.push('b') }
    else if d == 12 { out.push('c') }
    else if d == 13 { out.push('d') }
    else if d == 14 { out.push('e') }
    else { out.push('f') }
}

/// The value of a lower-case hexadecimal digit character, if it is one.
pub fn hex_val_of(c: char) -> (r: Option<u32>)
    ensures
        match r {
            Some(v) => hex_val(c) == v && v < 16,
            None => hex_val(c) == -1,
        },
{
    if c == '0' { Some(0) }
    else if c == '1' { Some(1) }
    else if c == '2' { Some(2) }
    else if c == '3' { Some(3) }
    else if c == '4' { Some(4) }
    else if c == '5' { Some(5) }
    else if c == '6' { Some(6) }
    else if c == '7' { Some(7) }
    else if c == '8' { Some(8) }
    else if c == '9' { Some(9) }
    else if c == 'a' { Some(10) }
    else if c == 'b' { Some(11) }
    else if c == 'c' { Some(12) }
    else if c == 'd' { Some(13) }
    else if c == 'e' { Some(14) }
    else if c == 'f' { Some(15) }
    else { None }
}

/// Appends the escaped form of one character to `out`.
fn push_escaped_char(out: &mut Vec<char>, c: char)
    ensures
        final(out)@ == old(out)@ + escaped_char(c),
{
    if c == '"' {
        out.push('\\');
        out.push('"');
        proof {
            assert(old(out)@ + escaped_char(c) =~= out@);
        }
    } else if c == '\\' {
        out.push('\\');
        out.push('\\');
        proof {
            assert(old(out)@ + escaped_char(c) =~= out@);
        }
    } else if (c as u32) < 32 {
        out.push('\\');
        out.push('u');
        out.push('0');
        out.push('0');
        let v = c as u32;
        push_hex(out, v / 16);
        push_hex(out, v % 16);
        proof {
            assert(old(out)@ + escaped_char(c) =~= out@);
        }
    } else {
        out.push(c);
        proof {
            assert(old(out)@ + escaped_char(c) =~= out@);
        }
    }
}

/// Appends the escaped form of a whole text to `out`.
pub fn push_escaped(out: &mut Vec<char>, s: &Vec<char>)
    ensures
        final(out)@ == old(out)@ + escape(s@),
{
    let n = s.len();
    let mut i: usize = 0;
    while i < n
        invariant
            n == s@.len(),
            i <= n,
            out@ == old(out)@ + escape(s@.take(i as int)),
        decreases n - i,
    {
        push_escaped_char(out, s[i]);
        i = i + 1;
        proof {
            assert(s@.take(i as int) =~= s@.take(i - 1).push(s@[i - 1]));
            lemma_escape_snoc(s@.take(i - 1), s@[i - 1]);
            assert(out@ =~= old(out)@ + escape(s@.take(i as int)));
        }
    }
    proof {
        assert(s@.take(n as int) =~= s@);
    }
}

/// Whether the text `t` holds, from position `pos` on, the escaped form of
/// `s` followed by a closing quote.
pub open spec fn string_body_at(t: Seq<char>, pos: int, s: Seq<char>) -> bool {
    &&& 0 <= pos
    &&& pos + escape(s).len() < t.len()
    &&& t.subrange(pos, pos + escape(s).len()) == escape(s)
    &&& t[pos + escape(s).len()] == '"'
}

/// The first escaped unit of a string body determines the text around it,
/// and the remainder is again a string body.
proof fn lemma_body_head(t: Seq<char>, cur: int, s2: Seq<char>)
    requires
        string_body_at(t, cur, s2),
        s2.len() > 0,
    ensures
        escaped_char(s2[0]).len() <= escape(s2).len(),
        forall|j: int| 0 <= j < escaped_char(s2[0]).len() ==> t[cur + j] == escaped_char(s2[0])[j],
        string_body_at(t, cur + escaped_char(s2[0]).len(), s2.skip(1)),
{
    let u = escaped_char(s2[0]);
    let rest = escape(s2.skip(1));
    assert(escape(s2) == u + rest);
    assert forall|j: int| 0 <= j < u.len() implies t[cur + j] == u[j] by {
        assert(t.subrange(cur, cur + escape(s2).len())[j] == t[cur + j]);
        assert(escape(s2)[j] == u[j]);
    }
    assert(t.subrange(cur + u.len(), cur + u.len() + rest.len()) =~= rest) by {
        assert forall|j: int| 0 <= j < rest.len() implies t.subrange(
            cur + u.len(),
            cur + u.len() + rest.len(),
        )[j] == rest[j] by {
            assert(t.subrange(cur, cur + escape(s2).len())[u.len() + j] == t[cur + u.len() + j]);
            assert(escape(s2)[u.len() + j] == rest[j]);
        }
    }
    assert(t[cur + u.len() + rest.len()] == '"');
}

/// When a string body stands at `cur` and the character there is not a
/// closing quote, the body's first unit pins down the text around `cur`.
proof fn lemma_unit_facts(t: Seq<char>, cur: int, s2: Seq<char>)
    requires
        string_body_at(t, cur, s2),
        t[cur] != '"',
    ensures
        s2.len() > 0,
        0 <= s2[0] as int,
        is_plain(s2[0]) ==> t[cur] == s2[0] && string_body_at(t, cur + 1, s2.skip(1)),
        !is_plain(s2[0]) ==> t[cur] == '\\',
        s2[0] == '"' ==> t[cur + 1] == '"' && string_body_at(t, cur + 2, s2.skip(1)),
        s2[0] == '\\' ==> t[cur + 1] == '\\' && string_body_at(t, cur + 2, s2.skip(1)),
        (s2[0] as int) < 32 ==> {
            &&& t[cur + 1] == 'u'
            &&& t[cur + 2] == '0'
            &&& t[cur + 3] == '0'
            &&& t[cur + 4] == hex_char(s2[0] as int / 16)
            &&& t[cur + 5] == hex_char(s2[0] as int % 16)
            &&& string_body_at(t, cur + 6, s2.skip(1))
        },
        !is_plain(s2[0]) && (s2[0] as int) >= 32 ==> s2[0] == '"' || s2[0] == '\\',
{
    if s2.len() == 0 {
        assert(escape(s2).len() == 0);
        assert(t[cur] == '"');
    }
    lemma_char_bounds(s2[0]);
    lemma_body_head(t, cur, s2);
    lemma_escaped_char_head(s2[0]);
}

/// Reads a quoted-string body out of `input` starting at `pos`: the
/// characters up to, but not through, the next closing quote, with escapes
/// undone. The result is the one text whose escaped form stands there, and
/// `None` comes exactly when no text's escaped form does.
pub fn parse_string(input: &Vec<char>, pos: usize) -> (r: Option<(Vec<char>, usize)>)
    requires
        pos <= input@.len(),
    ensures
        match r {
            Some(p) => {
                &&& string_body_at(input@, pos as int, p.0@)
                &&& p.1 == pos + escape(p.0@).len()
                &&& p.1 < input@.len()
                &&& forall|s: Seq<char>| string_body_at(input@, pos as int, s) ==> s == p.0@
            },
            None => forall|s: Seq<char>| !string_body_at(input@, pos as int, s),
        },
{
    let ilen = input.len();
    let mut acc: Vec<char> = Vec::new();
    let mut cur: usize = pos;
    proof {
        assert(input@.subrange(pos as int, pos as int) =~= Seq::<char>::empty());
        assert forall|s: Seq<char>| string_body_at(input@, pos as int, s) implies {
            &&& acc@.len() <= s.len()
            &&& s.take(acc@.len() as int) == acc@
            &&& string_body_at(input@, cur as int, s.skip(acc@.len() as int))
        } by {
            assert(s.take(0) =~= acc@);
            assert(s.skip(0) =~= s);
        }
    }
    loop
        invariant
            ilen == input@.len(),
            pos <= cur <= ilen,
            input@.subrange(pos as int, cur as int) == escape(acc@),
            forall|s: Seq<char>| string_body_at(input@, pos as int, s) ==> {
                &&& acc@.len() <= s.len()
                &&& s.take(acc@.len() as int) == acc@
                &&& string_body_at(input@, cur as int, s.skip(acc@.len() as int))
            },
        decreases ilen - cur,
    {
        proof {
            assert(cur - pos == escape(acc@).len());
        }
        if cur == ilen {
            proof {
                assert forall|s: Seq<char>| !string_body_at(input@, pos as int, s) by {
                    if string_body_at(input@, pos as int, s) {
                        assert(string_body_at(input@, cur as int, s.skip(acc@.len() as int)));
                    }
                }
            }
            return None;
        }
        let c = input[cur];
        if c == '"' {
            proof {
                assert forall|s: Seq<char>| string_body_at(input@, pos as int, s) implies s
                    == acc@ by {
                    let s2 = s.skip(acc@.len() as int);
                    if s2.len() > 0 {
                        lemma_body_head(input@, cur as int, s2);
                        lemma_escaped_char_head(s2[0]);
                        assert(input@[cur as int] == escaped_char(s2[0])[0]);
                        assert(false);
                    }
                    assert(s =~= s.take(acc@.len() as int));
                }
                assert(string_body_at(input@, pos as int, acc@));
            }
            return Some((acc, cur));
        } else if c == '\\' {
            if ilen - cur < 2 {
                proof {
                    assert forall|s: Seq<char>| !string_body_at(input@, pos as int, s) by {
                        if string_body_at(input@, pos as int, s) {
                            let s2 = s.skip(acc@.len() as int);
                            lemma_unit_facts(input@, cur as int, s2);
                            if is_plain(s2[0]) {
                                assert(input@[cur as int] == s2[0]);
                            } else if (s2[0] as int) < 32 {
                                assert(string_body_at(input@, cur + 6, s2.skip(1)));
                            } else {
                                assert(string_body_at(input@, cur + 2, s2.skip(1)));
                            }
                        }
                    }
                }
                return None;
            }
            let e = input[cur + 1];
            let decoded: char;
            let step: usize;
            if e == '"' {
                decoded = '"';
                step = 2;
            } else if e == '\\' {
                decoded = '\\';
                step = 2;
            } else if e == 'u' {
                if ilen - cur < 7 {
                    proof {
                        assert forall|s: Seq<char>| !string_body_at(input@, pos as int, s) by {
                            if string_body_at(input@, pos as int, s) {
                                let s2 = s.skip(acc@.len() as int);
                                lemma_unit_facts(input@, cur as int, s2);
                                if is_plain(s2[0]) {
                                    assert(input@[cur as int] == s2[0]);
                                } else if (s2[0] as int) >= 32 {
                                    assert(input@[cur + 1] == '"' || input@[cur + 1] == '\\');
                                } else {
                                    assert(string_body_at(input@, cur + 6, s2.skip(1)));
                                }
                            }
                        }
                    }
                    return None;
                }
                if input[cur + 2] != '0' || input[cur + 3] != '0' {
                    proof {
                        assert forall|s: Seq<char>| !string_body_at(input@, pos as int, s) by {
                            if string_body_at(input@, pos as int, s) {
                                let s2 = s.skip(acc@.len() as int);
                                lemma_unit_facts(input@, cur as int, s2);
                                if is_plain(s2[0]) {
                                    assert(input@[cur as int] == s2[0]);
                                } else if (s2[0] as int) >= 32 {
                                    assert(input@[cur + 1] == '"' || input@[cur + 1] == '\\');
                                }
                            }
                        }
                    }
                    return None;
                }
                let hv_opt = hex_val_of(input[cur + 4]);
                let lv_opt = hex_val_of(input[cur + 5]);
                let (hv, lv) = match (hv_opt, lv_opt) {
                    (Some(h), Some(l)) => (h, l),
                    _ => {
                        proof {
                            assert forall|s: Seq<char>| !string_body_at(input@, pos as int, s) by {
                                if string_body_at(input@, pos as int, s) {
                                    let s2 = s.skip(acc@.len() as int);
                                    lemma_unit_facts(input@, cur as int, s2);
                                    if is_plain(s2[0]) {
                                        assert(input@[cur as int] == s2[0]);
                                    } else if (s2[0] as int) >= 32 {
                                        assert(input@[cur + 1] == '"' || input@[cur + 1] == '\\');
                                    } else {
                                        lemma_hex_round_trip(s2[0] as int / 16);
                                        lemma_hex_round_trip(s2[0] as int % 16);
                                    }
                                }
                            }
                        }
                        return None;
                    },
                };
                let v = hv * 16 + lv;
                if v >= 32 {
                    proof {
                        assert forall|s: Seq<char>| !string_body_at(input@, pos as int, s) by {
                            if string_body_at(input@, pos as int, s) {
                                let s2 = s.skip(acc@.len() as int);
                                lemma_unit_facts(input@, cur as int, s2);
                                if is_plain(s2[0]) {
                                    assert(input@[cur as int] == s2[0]);
                                } else if (s2[0] as int) >= 32 {
                                    assert(input@[cur + 1] == '"' || input@[cur + 1] == '\\');
                                } else {
                                    lemma_hex_round_trip(s2[0] as int / 16);
                                    lemma_hex_round_trip(s2[0] as int % 16);
                                    assert(hv == s2[0] as int / 16 && lv == s2[0] as int % 16);
                                    assert(hv * 16 + lv == s2[0] as int);
                                }
                            }
                        }
                    }
                    return None;
                }
                decoded = (v as u8) as char;
                step = 6;
                proof {
                    assert(decoded as int == v);
                }
            } else {
                proof {
                    assert forall|s: Seq<char>| !string_body_at(input@, pos as int, s) by {
                        if string_body_at(input@, pos as int, s) {
                            let s2 = s.skip(acc@.len() as int);
                            lemma_unit_facts(input@, cur as int, s2);
                            if is_plain(s2[0]) {
                                assert(input@[cur as int] == s2[0]);
                            } else if (s2[0] as int) >= 32 {
                                assert(input@[cur + 1] == '"' || input@[cur + 1] == '\\');
                            } else {
                                assert(input@[cur + 1] == 'u');
                            }
                        }
                    }
                }
                return None;
            }
            let ghost old_acc = acc@;
            let ghost old_cur = cur as int;
            acc.push(decoded);
            cur = cur + step;
            proof {
                lemma_escape_snoc(old_acc, decoded);
                lemma_escaped_char_head(decoded);
                if (decoded as int) < 32 {
                    let dv = decoded as int;
                    assert(input@[old_cur + 1] == 'u');
                    lemma_hex_char_val(input@[old_cur + 4]);
                    lemma_hex_char_val(input@[old_cur + 5]);
                    assert(dv / 16 == hex_val(input@[old_cur + 4]) && dv % 16 == hex_val(input@[old_cur + 5])) by (nonlinear_arith)
                        requires
                            hex_val(input@[old_cur + 4]) * 16 + hex_val(input@[old_cur + 5]) == dv,
                            0 <= hex_val(input@[old_cur + 5]) < 16,
                            0 <= hex_val(input@[old_cur + 4]),
                    ;
                    assert(escaped_char(decoded)[4] == input@[old_cur + 4]);
                    assert(escaped_char(decoded)[5] == input@[old_cur + 5]);
                }
                assert(input@.subrange(old_cur, cur as int) =~= escaped_char(decoded));
                assert(input@.subrange(pos as int, cur as int) =~= input@.subrange(
                    pos as int,
                    old_cur,
                ) + input@.subrange(old_cur, cur as int));
                assert(input@.subrange(pos as int, cur as int) == escape(acc@));
                assert forall|s: Seq<char>| string_body_at(input@, pos as int, s) implies {
                    &&& acc@.len() <= s.len()
                    &&& s.take(acc@.len() as int) == acc@
                    &&& string_body_at(input@, cur as int, s.skip(acc@.len() as int))
                } by {
                    let s2 = s.skip(old_acc.len() as int);
                    lemma_unit_facts(input@, old_cur, s2);
                    if is_plain(s2[0]) {
                        assert(input@[old_cur] == s2[0]);
                        assert(false);
                    }
                    if (s2[0] as int) < 32 {
                        lemma_hex_round_trip(s2[0] as int / 16);
                        lemma_hex_round_trip(s2[0] as int % 16);
                        assert(input@[old_cur + 1] == 'u');
                        assert(hex_val(input@[old_cur + 4]) == s2[0] as int / 16);
                        assert(hex_val(input@[old_cur + 5]) == s2[0] as int % 16);
                        assert(s2[0] as int == 16 * (s2[0] as int / 16) + (s2[0] as int % 16));
                        assert(decoded as int == 16 * (decoded as int / 16) + (decoded as int % 16));
                        assert(s2[0] as int == decoded as int);
                        assert(s2[0] == decoded);
                    } else {
                        assert(input@[old_cur + 1] == escaped_char(s2[0])[1]);
                        assert(s2[0] == decoded);
                    }
                    assert(s.take(acc@.len() as int) =~= s.take(old_acc.len() as int).push(
                        s[old_acc.len() as int],
                    ));
                    assert(s[old_acc.len() as int] == s2[0]);
                    assert(s2.skip(1) =~= s.skip(acc@.len() as int));
                }
            }
        } else if (c as u32) < 32 {
            proof {
                lemma_char_bounds(c);
                assert(c as u32 == c as int);
                assert((c as int) < 32);
                assert forall|s: Seq<char>| !string_body_at(input@, pos as int, s) by {
                    if string_body_at(input@, pos as int, s) {
                        let s2 = s.skip(acc@.len() as int);
                        lemma_unit_facts(input@, cur as int, s2);
                        if is_plain(s2[0]) {
                            assert(input@[cur as int] == s2[0]);
                        } else {
                            assert(input@[cur as int] == '\\');
                        }
                    }
                }
            }
            return None;
        } else {
            let ghost old_acc = acc@;
            let ghost old_cur = cur as int;
            acc.push(c);
            cur = cur + 1;
            proof {
                lemma_escape_snoc(old_acc, c);
                lemma_escaped_char_head(c);
                lemma_char_bounds(c);
                assert(c as u32 == c as int);
                assert(is_plain(c));
                assert(input@.subrange(old_cur, cur as int) =~= escaped_char(c));
                assert(input@.subrange(pos as int, cur as int) =~= input@.subrange(
                    pos as int,
                    old_cur,
                ) + input@.subrange(old_cur, cur as int));
                assert(input@.subrange(pos as int, cur as int) == escape(acc@));
                assert forall|s: Seq<char>| string_body_at(input@, pos as int, s) implies {
                    &&& acc@.len() <= s.len()
                    &&& s.take(acc@.len() as int) == acc@
                    &&& string_body_at(input@, cur as int, s.skip(acc@.len() as int))
                } by {
                    let s2 = s.skip(old_acc.len() as int);
                    lemma_unit_facts(input@, old_cur, s2);
                    if !is_plain(s2[0]) {
                        assert(input@[old_cur] == '\\');
                        assert(false);
                    }
                    assert(s2[0] == c);
                    assert(s.take(acc@.len() as int) =~= s.take(old_acc.len() as int).push(
                        s[old_acc.len() as int],
                    ));
                    assert(s[old_acc.len() as int] == s2[0]);
                    assert(s2.skip(1) =~= s.skip(acc@.len() as int));
                }
            }
        }
    }
}

} // verus!
