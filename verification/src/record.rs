use crate::escape::{escape, parse_string, push_escaped, string_body_at};
use crate::text::{
    chars_of, expect_lit, lemma_skip_ws_to, lit_at, push_str_chars, skip_ws, spec_skip_ws,
    string_of,
};
use vstd::prelude::*;

verus! {

/// The mathematical shape of a record: its three texts.
pub ghost struct CharacterModel {
    pub name: Seq<char>,
    pub portrayal: Seq<char>,
    pub description: Seq<char>,
}

/// A named entity extracted from one source table row: who it is, who
/// portrays it, and what the source says about it.
#[derive(Debug)]
pub struct Character {
    pub name: String,
    pub portrayal: String,
    pub description: String,
}

impl View for Character {
    type V = CharacterModel;

    open spec fn view(&self) -> CharacterModel {
        CharacterModel {
            name: self.name@,
            portrayal: self.portrayal@,
            description: self.description@,
        }
    }
}

impl DeepView for Character {
    type V = CharacterModel;

    open spec fn deep_view(&self) -> CharacterModel {
        self.view()
    }
}

impl PartialEq for Character {
    fn eq(&self, other: &Character) -> (r: bool) {
        self.name == other.name && self.portrayal == other.portrayal && self.description
            == other.description
    }
}

impl vstd::std_specs::cmp::PartialEqSpecImpl for Character {
    open spec fn obeys_eq_spec() -> bool {
        true
    }

    open spec fn eq_spec(&self, other: &Character) -> bool {
        self@ == other@
    }
}

impl Clone for Character {
    fn clone(&self) -> (r: Character)
        ensures
            r@ == self@,
    {
        Character {
            name: self.name.clone(),
            portrayal: self.portrayal.clone(),
            description: self.description.clone(),
        }
    }
}

/// The one-line JSON document written for a record: the three fields, in
/// source order, each value escaped.
pub open spec fn record_json(m: CharacterModel) -> Seq<char> {
    "{\"name\":\""@ + escape(m.name) + "\",\"portrayal\":\""@ + escape(m.portrayal)
        + "\",\"description\":\""@ + escape(m.description) + "\"}"@
}

/// Writes a record as its one-line JSON document.
pub fn record_to_json(rec: &Character) -> (r: String)
    ensures
        r@ == record_json(rec@),
{
    let mut out: Vec<char> = Vec::new();
    push_str_chars(&mut out, "{\"name\":\"");
    let name_chars = chars_of(rec.name.as_str());
    push_escaped(&mut out, &name_chars);
    push_str_chars(&mut out, "\",\"portrayal\":\"");
    let portrayal_chars = chars_of(rec.portrayal.as_str());
    push_escaped(&mut out, &portrayal_chars);
    push_str_chars(&mut out, "\",\"description\":\"");
    let description_chars = chars_of(rec.description.as_str());
    push_escaped(&mut out, &description_chars);
    push_str_chars(&mut out, "\"}");
    proof {
        assert(out@ =~= record_json(rec@));
    }
    string_of(out)
}

/// Whether the JSON document of the record `m` stands in `t` at `pos`.
pub open spec fn record_at(t: Seq<char>, pos: int, m: CharacterModel) -> bool {
    &&& 0 <= pos
    &&& pos + record_json(m).len() <= t.len()
    &&& t.subrange(pos, pos + record_json(m).len()) == record_json(m)
}

/// Splitting a known concatenation at `pos` into its two halves.
pub proof fn lemma_concat_at(t: Seq<char>, pos: int, a: Seq<char>, b: Seq<char>)
    requires
        0 <= pos,
        pos + a.len() + b.len() <= t.len(),
        t.subrange(pos, pos + a.len() + b.len()) == a + b,
    ensures
        t.subrange(pos, pos + a.len()) == a,
        t.subrange(pos + a.len(), pos + a.len() + b.len()) == b,
{
    assert forall|j: int| 0 <= j < a.len() implies t.subrange(pos, pos + a.len())[j] == a[j] by {
        assert(t.subrange(pos, pos + a.len() + b.len())[j] == t[pos + j]);
        assert((a + b)[j] == a[j]);
        assert(t.subrange(pos, pos + a.len())[j] == t[pos + j]);
    }
    assert(t.subrange(pos, pos + a.len()) =~= a);
    assert forall|j: int| 0 <= j < b.len() implies t.subrange(
        pos + a.len(),
        pos + a.len() + b.len(),
    )[j] == b[j] by {
        assert(t.subrange(pos, pos + a.len() + b.len())[a.len() + j] == t[pos + a.len() + j]);
        assert((a + b)[a.len() + j] == b[j]);
        assert(t.subrange(pos + a.len(), pos + a.len() + b.len())[j] == t[pos + a.len() + j]);
    }
    assert(t.subrange(pos + a.len(), pos + a.len() + b.len()) =~= b);
}

/// A record document at `pos` decomposes into its literal pieces and the
/// three escaped field bodies, each one closed by the quote that opens the
/// literal after it.
proof fn lemma_record_decompose(t: Seq<char>, pos: int, m: CharacterModel)
    requires
        record_at(t, pos, m),
    ensures
        lit_at(t, pos, "{\"name\":\""@),
        string_body_at(t, pos + "{\"name\":\""@.len(), m.name),
        lit_at(t, pos + "{\"name\":\""@.len() + escape(m.name).len(), "\",\"portrayal\":\""@),
        string_body_at(
            t,
            pos + "{\"name\":\""@.len() + escape(m.name).len() + "\",\"portrayal\":\""@.len(),
            m.portrayal,
        ),
        lit_at(
            t,
            pos + "{\"name\":\""@.len() + escape(m.name).len() + "\",\"portrayal\":\""@.len()
                + escape(m.portrayal).len(),
            "\",\"description\":\""@,
        ),
        string_body_at(
            t,
            pos + "{\"name\":\""@.len() + escape(m.name).len() + "\",\"portrayal\":\""@.len()
                + escape(m.portrayal).len() + "\",\"description\":\""@.len(),
            m.description,
        ),
        lit_at(
            t,
            pos + "{\"name\":\""@.len() + escape(m.name).len() + "\",\"portrayal\":\""@.len()
                + escape(m.portrayal).len() + "\",\"description\":\""@.len() + escape(
                m.description,
            ).len(),
            "\"}"@,
        ),
{
    reveal_strlit("{\"name\":\"");
    reveal_strlit("\",\"portrayal\":\"");
    reveal_strlit("\",\"description\":\"");
    reveal_strlit("\"}");
    let l1 = "{\"name\":\""@;
    let l2 = "\",\"portrayal\":\""@;
    let l3 = "\",\"description\":\""@;
    let l4 = "\"}"@;
    let e1 = escape(m.name);
    let e2 = escape(m.portrayal);
    let e3 = escape(m.description);
    let whole = record_json(m);
    assert(whole =~= l1 + (e1 + (l2 + (e2 + (l3 + (e3 + l4))))));
    let p1 = pos + l1.len();
    lemma_concat_at(t, pos, l1, e1 + (l2 + (e2 + (l3 + (e3 + l4)))));
    let q1 = p1 + e1.len();
    lemma_concat_at(t, p1, e1, l2 + (e2 + (l3 + (e3 + l4))));
    let p2 = q1 + l2.len();
    lemma_concat_at(t, q1, l2, e2 + (l3 + (e3 + l4)));
    let q2 = p2 + e2.len();
    lemma_concat_at(t, p2, e2, l3 + (e3 + l4));
    let p3 = q2 + l3.len();
    lemma_concat_at(t, q2, l3, e3 + l4);
    let q3 = p3 + e3.len();
    lemma_concat_at(t, p3, e3, l4);
    assert(t[q1] == l2[0]) by {
        assert(t.subrange(q1, q1 + l2.len())[0] == t[q1]);
    }
    assert(t[q2] == l3[0]) by {
        assert(t.subrange(q2, q2 + l3.len())[0] == t[q2]);
    }
    assert(t[q3] == l4[0]) by {
        assert(t.subrange(q3, q3 + l4.len())[0] == t[q3]);
    }
}

/// A literal carries each of its contiguous parts.
pub proof fn lemma_lit_sub(t: Seq<char>, pos: int, lit: Seq<char>, a: int, b: int, sub: Seq<char>)
    requires
        lit_at(t, pos, lit),
        0 <= a <= b <= lit.len(),
        sub == lit.subrange(a, b),
    ensures
        lit_at(t, pos + a, sub),
{
    assert forall|j: int| 0 <= j < sub.len() implies t.subrange(pos + a, pos + a + sub.len())[j]
        == sub[j] by {
        assert(t.subrange(pos, pos + lit.len())[a + j] == t[pos + a + j]);
        assert(t.subrange(pos + a, pos + a + sub.len())[j] == t[pos + a + j]);
        assert(lit.subrange(a, b)[j] == lit[a + j]);
    }
    assert(t.subrange(pos + a, pos + a + sub.len()) =~= sub);
}

/// Whether a record object for `m` stands in `t` from `pos` on, written as
/// JSON allows it: the three fields in source order, each value a quoted
/// string, with insignificant whitespace permitted between tokens.
#[verifier::opaque]
pub open spec fn record_at_ws(t: Seq<char>, pos: int, m: CharacterModel) -> bool {
    let a0 = spec_skip_ws(t, pos);
    let a1 = spec_skip_ws(t, a0 + 1);
    let a2 = spec_skip_ws(t, a1 + "\"name\""@.len());
    let b1 = spec_skip_ws(t, a2 + 1);
    let c1 = b1 + 1 + escape(m.name).len();
    let a3 = spec_skip_ws(t, c1 + 1);
    let a4 = spec_skip_ws(t, a3 + 1);
    let a5 = spec_skip_ws(t, a4 + "\"portrayal\""@.len());
    let b2 = spec_skip_ws(t, a5 + 1);
    let c2 = b2 + 1 + escape(m.portrayal).len();
    let a6 = spec_skip_ws(t, c2 + 1);
    let a7 = spec_skip_ws(t, a6 + 1);
    let a8 = spec_skip_ws(t, a7 + "\"description\""@.len());
    let b3 = spec_skip_ws(t, a8 + 1);
    let c3 = b3 + 1 + escape(m.description).len();
    let a9 = spec_skip_ws(t, c3 + 1);
    &&& lit_at(t, a0, "{"@)
    &&& lit_at(t, a1, "\"name\""@)
    &&& lit_at(t, a2, ":"@)
    &&& lit_at(t, b1, "\""@)
    &&& string_body_at(t, b1 + 1, m.name)
    &&& lit_at(t, a3, ","@)
    &&& lit_at(t, a4, "\"portrayal\""@)
    &&& lit_at(t, a5, ":"@)
    &&& lit_at(t, b2, "\""@)
    &&& string_body_at(t, b2 + 1, m.portrayal)
    &&& lit_at(t, a6, ","@)
    &&& lit_at(t, a7, "\"description\""@)
    &&& lit_at(t, a8, ":"@)
    &&& lit_at(t, b3, "\""@)
    &&& string_body_at(t, b3 + 1, m.description)
    &&& lit_at(t, a9, "}"@)
}

/// The position just past the record object that `record_at_ws` describes.
#[verifier::opaque]
pub open spec fn record_ws_end(t: Seq<char>, pos: int, m: CharacterModel) -> int {
    let a0 = spec_skip_ws(t, pos);
    let a1 = spec_skip_ws(t, a0 + 1);
    let a2 = spec_skip_ws(t, a1 + "\"name\""@.len());
    let b1 = spec_skip_ws(t, a2 + 1);
    let c1 = b1 + 1 + escape(m.name).len();
    let a3 = spec_skip_ws(t, c1 + 1);
    let a4 = spec_skip_ws(t, a3 + 1);
    let a5 = spec_skip_ws(t, a4 + "\"portrayal\""@.len());
    let b2 = spec_skip_ws(t, a5 + 1);
    let c2 = b2 + 1 + escape(m.portrayal).len();
    let a6 = spec_skip_ws(t, c2 + 1);
    let a7 = spec_skip_ws(t, a6 + 1);
    let a8 = spec_skip_ws(t, a7 + "\"description\""@.len());
    let b3 = spec_skip_ws(t, a8 + 1);
    let c3 = b3 + 1 + escape(m.description).len();
    let a9 = spec_skip_ws(t, c3 + 1);
    a9 + 1
}

/// The exactly written one-line record document is one way a record object
/// stands in a text: with no whitespace between its tokens.
pub proof fn lemma_record_exact_spelled(t: Seq<char>, pos: int, m: CharacterModel)
    requires
        record_at(t, pos, m),
    ensures
        record_at_ws(t, pos, m),
        record_ws_end(t, pos, m) == pos + record_json(m).len(),
{
    reveal(record_at_ws);
    reveal(record_ws_end);
    reveal_strlit("{\"name\":\"");
    reveal_strlit("\",\"portrayal\":\"");
    reveal_strlit("\",\"description\":\"");
    reveal_strlit("\"}");
    reveal_strlit("{");
    reveal_strlit("\"name\"");
    reveal_strlit("\"portrayal\"");
    reveal_strlit("\"description\"");
    reveal_strlit(":");
    reveal_strlit(",");
    reveal_strlit("\"");
    reveal_strlit("}");
    lemma_record_decompose(t, pos, m);
    let l1 = "{\"name\":\""@;
    let l2 = "\",\"portrayal\":\""@;
    let l3 = "\",\"description\":\""@;
    let l4 = "\"}"@;
    let q1 = pos + l1.len() + escape(m.name).len();
    let q2 = q1 + l2.len() + escape(m.portrayal).len();
    let q3 = q2 + l3.len() + escape(m.description).len();
    assert("{"@ =~= l1.subrange(0, 1));
    assert("\"name\""@ =~= l1.subrange(1, 7));
    assert(":"@ =~= l1.subrange(7, 8));
    assert("\""@ =~= l1.subrange(8, 9));
    assert(","@ =~= l2.subrange(1, 2));
    assert("\"portrayal\""@ =~= l2.subrange(2, 13));
    assert(":"@ =~= l2.subrange(13, 14));
    assert("\""@ =~= l2.subrange(14, 15));
    assert(","@ =~= l3.subrange(1, 2));
    assert("\"description\""@ =~= l3.subrange(2, 15));
    assert(":"@ =~= l3.subrange(15, 16));
    assert("\""@ =~= l3.subrange(16, 17));
    assert("}"@ =~= l4.subrange(1, 2));
    lemma_lit_char(t, pos, l1, 0);
    lemma_lit_char(t, pos, l1, 1);
    lemma_lit_char(t, pos, l1, 7);
    lemma_lit_char(t, pos, l1, 8);
    lemma_lit_char(t, q1, l2, 1);
    lemma_lit_char(t, q1, l2, 2);
    lemma_lit_char(t, q1, l2, 13);
    lemma_lit_char(t, q1, l2, 14);
    lemma_lit_char(t, q2, l3, 1);
    lemma_lit_char(t, q2, l3, 2);
    lemma_lit_char(t, q2, l3, 15);
    lemma_lit_char(t, q2, l3, 16);
    lemma_lit_char(t, q3, l4, 1);
    lemma_skip_ws_to(t, pos, pos);
    lemma_lit_sub(t, pos, l1, 0, 1, "{"@);
    lemma_skip_ws_to(t, pos + 1, pos + 1);
    lemma_lit_sub(t, pos, l1, 1, 7, "\"name\""@);
    lemma_skip_ws_to(t, pos + 7, pos + 7);
    lemma_lit_sub(t, pos, l1, 7, 8, ":"@);
    lemma_skip_ws_to(t, pos + 8, pos + 8);
    lemma_lit_sub(t, pos, l1, 8, 9, "\""@);
    lemma_skip_ws_to(t, q1 + 1, q1 + 1);
    lemma_lit_sub(t, q1, l2, 1, 2, ","@);
    lemma_skip_ws_to(t, q1 + 2, q1 + 2);
    lemma_lit_sub(t, q1, l2, 2, 13, "\"portrayal\""@);
    lemma_skip_ws_to(t, q1 + 13, q1 + 13);
    lemma_lit_sub(t, q1, l2, 13, 14, ":"@);
    lemma_skip_ws_to(t, q1 + 14, q1 + 14);
    lemma_lit_sub(t, q1, l2, 14, 15, "\""@);
    lemma_skip_ws_to(t, q2 + 1, q2 + 1);
    lemma_lit_sub(t, q2, l3, 1, 2, ","@);
    lemma_skip_ws_to(t, q2 + 2, q2 + 2);
    lemma_lit_sub(t, q2, l3, 2, 15, "\"description\""@);
    lemma_skip_ws_to(t, q2 + 15, q2 + 15);
    lemma_lit_sub(t, q2, l3, 15, 16, ":"@);
    lemma_skip_ws_to(t, q2 + 16, q2 + 16);
    lemma_lit_sub(t, q2, l3, 16, 17, "\""@);
    lemma_skip_ws_to(t, q3 + 1, q3 + 1);
    lemma_lit_sub(t, q3, l4, 1, 2, "}"@);
}

/// Where two starting points reach the same first token, the same record
/// objects stand at both.
pub proof fn lemma_record_ws_agree(t: Seq<char>, p1: int, p2: int, m: CharacterModel)
    requires
        spec_skip_ws(t, p1) == spec_skip_ws(t, p2),
        record_at_ws(t, p1, m),
    ensures
        record_at_ws(t, p2, m),
        record_ws_end(t, p2, m) == record_ws_end(t, p1, m),
{
    reveal(record_at_ws);
    reveal(record_ws_end);
}

/// A record object's first token is its opening brace.
pub proof fn lemma_record_head_char(t: Seq<char>, pos: int, m: CharacterModel)
    requires
        record_at_ws(t, pos, m),
    ensures
        t[spec_skip_ws(t, pos)] == '{',
{
    reveal(record_at_ws);
    reveal_strlit("{");
    lemma_lit_char(t, spec_skip_ws(t, pos), "{"@, 0);
}

/// Each character of a literal stands at its own offset.
pub proof fn lemma_lit_char(t: Seq<char>, pos: int, lit: Seq<char>, k: int)
    requires
        lit_at(t, pos, lit),
        0 <= k < lit.len(),
    ensures
        t[pos + k] == lit[k],
{
    assert(t.subrange(pos, pos + lit.len())[k] == t[pos + k]);
}

/// Reads one record object out of `input` from `pos` on, whitespace
/// between tokens allowed. The result is the one record that stands there;
/// `None` comes exactly when none does.
pub fn parse_record(input: &Vec<char>, pos: usize) -> (r: Option<(Character, usize)>)
    requires
        pos <= input@.len(),
    ensures
        match r {
            Some(p) => {
                &&& record_at_ws(input@, pos as int, p.0@)
                &&& p.1 == record_ws_end(input@, pos as int, p.0@)
                &&& pos <= p.1 <= input@.len()
                &&& forall|m: CharacterModel| record_at_ws(input@, pos as int, m) ==> m == p.0@
            },
            None => forall|m: CharacterModel| !record_at_ws(input@, pos as int, m),
        },
{
    proof {
        reveal(record_at_ws);
        reveal(record_ws_end);
        reveal_strlit("{");
        reveal_strlit(":");
        reveal_strlit(",");
        reveal_strlit("\"");
        reveal_strlit("}");
    }
    let ilen = input.len();
    proof {
        assert(ilen == input@.len());
    }
    let a0 = skip_ws(input, pos);
    let t0 = match expect_lit(input, a0, "{") {
        Some(p) => p,
        None => {
            return None;
        },
    };
    let a1 = skip_ws(input, t0);
    let t1 = match expect_lit(input, a1, "\"name\"") {
        Some(p) => p,
        None => {
            return None;
        },
    };
    let a2 = skip_ws(input, t1);
    let t2 = match expect_lit(input, a2, ":") {
        Some(p) => p,
        None => {
            return None;
        },
    };
    let b1 = skip_ws(input, t2);
    let t3 = match expect_lit(input, b1, "\"") {
        Some(p) => p,
        None => {
            return None;
        },
    };
    let (name, c1) = match parse_string(input, t3) {
        Some(p) => p,
        None => {
            return None;
        },
    };
    let a3 = skip_ws(input, c1 + 1);
    proof {
        assert forall|m: CharacterModel| record_at_ws(input@, pos as int, m) implies m.name
            == name@ by {}
    }
    let t4 = match expect_lit(input, a3, ",") {
        Some(p) => p,
        None => {
            return None;
        },
    };
    let a4 = skip_ws(input, t4);
    let t5 = match expect_lit(input, a4, "\"portrayal\"") {
        Some(p) => p,
        None => {
            return None;
        },
    };
    let a5 = skip_ws(input, t5);
    let t6 = match expect_lit(input, a5, ":") {
        Some(p) => p,
        None => {
            return None;
        },
    };
    let b2 = skip_ws(input, t6);
    let t7 = match expect_lit(input, b2, "\"") {
        Some(p) => p,
        None => {
            return None;
        },
    };
    let (portrayal, c2) = match parse_string(input, t7) {
        Some(p) => p,
        None => {
            return None;
        },
    };
    let a6 = skip_ws(input, c2 + 1);
    proof {
        assert forall|m: CharacterModel| record_at_ws(input@, pos as int, m) implies m.portrayal
            == portrayal@ by {}
    }
    let t8 = match expect_lit(input, a6, ",") {
        Some(p) => p,
        None => {
            return None;
        },
    };
    let a7 = skip_ws(input, t8);
    let t9 = match expect_lit(input, a7, "\"description\"") {
        Some(p) => p,
        None => {
            return None;
        },
    };
    let a8 = skip_ws(input, t9);
    let t10 = match expect_lit(input, a8, ":") {
        Some(p) => p,
        None => {
            return None;
        },
    };
    let b3 = skip_ws(input, t10);
    let t11 = match expect_lit(input, b3, "\"") {
        Some(p) => p,
        None => {
            return None;
        },
    };
    let (description, c3) = match parse_string(input, t11) {
        Some(p) => p,
        None => {
            return None;
        },
    };
    let a9 = skip_ws(input, c3 + 1);
    proof {
        assert forall|m: CharacterModel| record_at_ws(input@, pos as int, m) implies m.description
            == description@ by {}
    }
    let end = match expect_lit(input, a9, "}") {
        Some(p) => p,
        None => {
            return None;
        },
    };
    let rec = Character {
        name: string_of(name),
        portrayal: string_of(portrayal),
        description: string_of(description),
    };
    proof {
        assert(record_at_ws(input@, pos as int, rec@));
        assert(end == record_ws_end(input@, pos as int, rec@));
        assert forall|m: CharacterModel| record_at_ws(input@, pos as int, m) implies m
            == rec@ by {
            assert(m.name == name@ && m.portrayal == portrayal@ && m.description == description@);
        }
    }
    Some((rec, end))
}

} // verus!
