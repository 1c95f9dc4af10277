use crate::errors::PipelineError;
use crate::escape::escape;
use crate::record::{
    lemma_record_head_char, lemma_record_ws_agree,
    lemma_record_exact_spelled, parse_record, record_at, record_at_ws,
    record_json, record_to_json, record_ws_end, Character, CharacterModel,
};
use crate::text::{
    chars_of, lemma_skip_ws_to, push_str_chars, skip_ws, spec_skip_ws, string_of,
};
use vstd::prelude::*;

verus! {

/// The items of a non-empty corpus artifact: one record document per line,
/// a comma after every line but the last.
pub open spec fn corpus_items(rs: Seq<CharacterModel>) -> Seq<char>
    decreases rs.len(),
{
    if rs.len() == 0 {
        Seq::empty()
    } else if rs.len() == 1 {
        record_json(rs[0]) + "\n"@
    } else {
        record_json(rs[0]) + ",\n"@ + corpus_items(rs.skip(1))
    }
}

/// The corpus artifact written for a record sequence: a JSON array with one
/// record document per line.
pub open spec fn corpus_json(rs: Seq<CharacterModel>) -> Seq<char> {
    if rs.len() == 0 {
        "[]"@
    } else {
        "[\n"@ + corpus_items(rs) + "]"@
    }
}

/// The artifact text written for the first `k` records, each with its
/// trailing comma and line break.
pub open spec fn items_pre(rs: Seq<CharacterModel>, k: int) -> Seq<char>
    decreases k,
{
    if k <= 0 {
        Seq::empty()
    } else {
        items_pre(rs, k - 1) + record_json(rs[k - 1]) + ",\n"@
    }
}

/// `items_pre` reads only the first `k` records.
proof fn lemma_items_pre_agree(rs1: Seq<CharacterModel>, rs2: Seq<CharacterModel>, k: int)
    requires
        0 <= k <= rs1.len(),
        k <= rs2.len(),
        rs1.take(k) == rs2.take(k),
    ensures
        items_pre(rs1, k) == items_pre(rs2, k),
    decreases k,
{
    if k > 0 {
        assert(rs1.take(k - 1) =~= rs2.take(k - 1)) by {
            assert forall|j: int| 0 <= j < k - 1 implies #[trigger] rs1.take(k - 1)[j] == rs2.take(
                k - 1,
            )[j] by {
                assert(rs1.take(k)[j] == rs1[j]);
                assert(rs2.take(k)[j] == rs2[j]);
            }
        }
        lemma_items_pre_agree(rs1, rs2, k - 1);
        assert(rs1.take(k)[k - 1] == rs1[k - 1]);
        assert(rs2.take(k)[k - 1] == rs2[k - 1]);
    }
}

/// The items of a corpus split after the first `k` records.
proof fn lemma_items_split(rs: Seq<CharacterModel>, k: int)
    requires
        0 <= k < rs.len(),
    ensures
        corpus_items(rs) == items_pre(rs, k) + corpus_items(rs.skip(k)),
    decreases k,
{
    if k == 0 {
        assert(rs.skip(0) =~= rs);
        assert(items_pre(rs, 0) + corpus_items(rs) =~= corpus_items(rs));
    } else {
        lemma_items_split(rs, k - 1);
        let tail = rs.skip(k - 1);
        assert(tail.len() >= 2);
        assert(corpus_items(tail) == record_json(tail[0]) + ",\n"@ + corpus_items(tail.skip(1)));
        assert(tail[0] == rs[k - 1]);
        assert(tail.skip(1) =~= rs.skip(k));
        assert(items_pre(rs, k) == items_pre(rs, k - 1) + record_json(rs[k - 1]) + ",\n"@);
        assert(items_pre(rs, k - 1) + (record_json(rs[k - 1]) + ",\n"@ + corpus_items(rs.skip(k)))
            =~= (items_pre(rs, k - 1) + record_json(rs[k - 1]) + ",\n"@) + corpus_items(
            rs.skip(k),
        ));
    }
}

/// Writes a corpus as its durable artifact text.
pub fn corpus_to_json(recs: &Vec<Character>) -> (r: String)
    ensures
        r@ == corpus_json(recs.deep_view()),
{
    let n = recs.len();
    let ghost rs = recs.deep_view();
    proof {
        assert(rs.len() == n);
    }
    if n == 0 {
        let mut out: Vec<char> = Vec::new();
        push_str_chars(&mut out, "[]");
        proof {
            assert(out@ =~= "[]"@);
        }
        return string_of(out);
    }
    let mut out: Vec<char> = Vec::new();
    push_str_chars(&mut out, "[\n");
    let mut i: usize = 0;
    proof {
        assert(out@ =~= "[\n"@ + items_pre(rs, 0));
    }
    while i + 1 < n
        invariant
            n == recs@.len(),
            rs == recs.deep_view(),
            rs.len() == n,
            i < n,
            out@ == "[\n"@ + items_pre(rs, i as int),
        decreases n - i,
    {
        let line = record_to_json(&recs[i]);
        push_str_chars(&mut out, line.as_str());
        push_str_chars(&mut out, ",\n");
        i = i + 1;
        proof {
            assert(rs[i - 1] == recs@[i - 1]@);
            assert(out@ =~= "[\n"@ + items_pre(rs, i as int));
        }
    }
    let line = record_to_json(&recs[i]);
    push_str_chars(&mut out, line.as_str());
    push_str_chars(&mut out, "\n");
    push_str_chars(&mut out, "]");
    proof {
        assert(rs[i as int] == recs@[i as int]@);
        if i == 0 {
            assert(rs.len() == 1);
            assert(corpus_items(rs) == record_json(rs[0]) + "\n"@);
            assert(items_pre(rs, 0) == Seq::<char>::empty());
        } else {
            lemma_items_split(rs, i as int);
            let tail = rs.skip(i as int);
            assert(tail.len() == 1);
            assert(corpus_items(tail) == record_json(tail[0]) + "\n"@);
            assert(tail[0] == rs[i as int]);
        }
        assert(out@ =~= "[\n"@ + corpus_items(rs) + "]"@);
    }
    string_of(out)
}

/// Writing a corpus and reading the artifact back gives the corpus again,
/// field for field: the store loses nothing between runs.
pub fn corpus_store_round_trip(recs: &Vec<Character>) -> (r: Vec<Character>)
    ensures
        r.deep_view() == recs.deep_view(),
{
    let text = corpus_to_json(recs);
    proof {
        lemma_pretty_spelled(recs.deep_view());
    }
    match corpus_from_json(text.as_str()) {
        Ok(v) => v,
        Err(_) => {
            proof {
                assert(false);
            }
            Vec::new()
        },
    }
}

/// Whether the items of a non-empty corpus stand in `t` from `pos` on, as
/// JSON allows them: the record objects in order, a comma between
/// neighbours, the closing bracket after the last, whitespace permitted
/// between tokens and after the document.
pub open spec fn items_spelled(t: Seq<char>, pos: int, rs: Seq<CharacterModel>) -> bool
    decreases rs.len(),
{
    &&& rs.len() >= 1
    &&& record_at_ws(t, pos, rs[0])
    &&& {
        let e = record_ws_end(t, pos, rs[0]);
        let q = spec_skip_ws(t, e);
        &&& q < t.len()
        &&& if rs.len() == 1 {
            t[q] == ']' && spec_skip_ws(t, q + 1) == t.len()
        } else {
            t[q] == ',' && items_spelled(t, q + 1, rs.skip(1))
        }
    }
}

/// Whether the text `t` is a corpus artifact holding `rs`: a JSON array of
/// the record objects, in order, with insignificant whitespace wherever
/// JSON permits it.
pub open spec fn corpus_spelled(t: Seq<char>, rs: Seq<CharacterModel>) -> bool {
    let q0 = spec_skip_ws(t, 0);
    &&& q0 < t.len()
    &&& t[q0] == '['
    &&& if rs.len() == 0 {
        let q1 = spec_skip_ws(t, q0 + 1);
        q1 < t.len() && t[q1] == ']' && spec_skip_ws(t, q1 + 1) == t.len()
    } else {
        items_spelled(t, q0 + 1, rs)
    }
}

/// The items the writer lays out, one record per line, are one way the
/// items stand in a text.
proof fn lemma_items_pretty(t: Seq<char>, pos: int, rs: Seq<CharacterModel>)
    requires
        rs.len() >= 1,
        0 <= pos <= t.len(),
        t.skip(pos) == "\n"@ + corpus_items(rs) + "]"@,
    ensures
        items_spelled(t, pos, rs),
    decreases rs.len(),
{
    reveal_strlit("\n");
    reveal_strlit("]");
    reveal_strlit(",");
    reveal_strlit(",\n");
    reveal_strlit("{\"name\":\"");
    let m = rs[0];
    let rj = record_json(m);
    assert(rj.len() >= 1 && rj[0] == '{') by {
        assert(rj == "{\"name\":\""@ + (escape(m.name) + "\",\"portrayal\":\""@ + escape(
            m.portrayal,
        ) + "\",\"description\":\""@ + escape(m.description) + "\"}"@));
        assert(rj[0] == "{\"name\":\""@[0]);
    }
    assert(t.skip(pos) =~= "\n"@ + (corpus_items(rs) + "]"@));
    lemma_skip_split(t, pos, "\n"@, corpus_items(rs) + "]"@);
    assert(t[pos] == '\n') by {
        assert(t.subrange(pos, pos + 1)[0] == t[pos]);
    }
    if rs.len() == 1 {
        assert(corpus_items(rs) == rj + "\n"@);
        assert(t.skip(pos + 1) =~= rj + ("\n"@ + "]"@));
        lemma_skip_split(t, pos + 1, rj, "\n"@ + "]"@);
        let e = pos + 1 + rj.len();
        assert(record_at(t, pos + 1, m));
        lemma_record_exact_spelled(t, pos + 1, m);
        assert(t[pos + 1] == '{') by {
            assert(t.subrange(pos + 1, e)[0] == t[pos + 1]);
        }
        lemma_skip_ws_to(t, pos, pos + 1);
        lemma_skip_ws_to(t, pos + 1, pos + 1);
        lemma_record_ws_agree(t, pos + 1, pos, m);
        assert(record_at_ws(t, pos, m));
        assert(record_ws_end(t, pos, m) == e);
        assert(t[e] == '\n' && t[e + 1] == ']') by {
            assert(t.skip(e)[0] == t[e]);
            assert(t.skip(e)[1] == t[e + 1]);
            assert(("\n"@ + "]"@)[0] == '\n');
            assert(("\n"@ + "]"@)[1] == ']');
        }
        assert(e + 2 == t.len());
        lemma_skip_ws_to(t, e, e + 1);
        lemma_skip_ws_to(t, e + 2, e + 2);
    } else {
        assert(corpus_items(rs) == rj + ",\n"@ + corpus_items(rs.skip(1)));
        assert(t.skip(pos + 1) =~= rj + (",\n"@ + corpus_items(rs.skip(1)) + "]"@));
        lemma_skip_split(t, pos + 1, rj, ",\n"@ + corpus_items(rs.skip(1)) + "]"@);
        let e = pos + 1 + rj.len();
        assert(record_at(t, pos + 1, m));
        lemma_record_exact_spelled(t, pos + 1, m);
        assert(t[pos + 1] == '{') by {
            assert(t.subrange(pos + 1, e)[0] == t[pos + 1]);
        }
        lemma_skip_ws_to(t, pos, pos + 1);
        lemma_skip_ws_to(t, pos + 1, pos + 1);
        lemma_record_ws_agree(t, pos + 1, pos, m);
        assert(record_at_ws(t, pos, m));
        assert(record_ws_end(t, pos, m) == e);
        assert(t.skip(e) =~= ","@ + ("\n"@ + corpus_items(rs.skip(1)) + "]"@));
        lemma_skip_split(t, e, ","@, "\n"@ + corpus_items(rs.skip(1)) + "]"@);
        assert(t[e] == ',') by {
            assert(t.subrange(e, e + 1)[0] == t[e]);
        }
        lemma_skip_ws_to(t, e, e);
        lemma_items_pretty(t, e + 1, rs.skip(1));
    }
}

/// The writer's pretty layout is one spelling of the corpus it writes.
pub proof fn lemma_pretty_spelled(rs: Seq<CharacterModel>)
    ensures
        corpus_spelled(corpus_json(rs), rs),
{
    reveal_strlit("[]");
    reveal_strlit("[\n");
    reveal_strlit("\n");
    reveal_strlit("]");
    let t = corpus_json(rs);
    if rs.len() == 0 {
        assert(t == "[]"@);
        assert(t.len() == 2 && t[0] == '[' && t[1] == ']');
        lemma_skip_ws_to(t, 0, 0);
        lemma_skip_ws_to(t, 1, 1);
        lemma_skip_ws_to(t, 2, 2);
    } else {
        assert(t == "[\n"@ + corpus_items(rs) + "]"@);
        assert(t[0] == '[') by {
            assert(("[\n"@ + corpus_items(rs) + "]"@)[0] == "[\n"@[0]);
        }
        lemma_skip_ws_to(t, 0, 0);
        assert(t.skip(1) =~= "\n"@ + corpus_items(rs) + "]"@);
        lemma_items_pretty(t, 1, rs);
    }
}

/// Reads a corpus back out of its artifact text. The result is the one
/// record sequence the artifact holds, however the document is laid out;
/// an error comes exactly when the text is no corpus artifact.
#[verifier::spinoff_prover]
#[verifier::rlimit(100)]
pub fn corpus_from_json(text: &str) -> (r: Result<Vec<Character>, PipelineError>)
    ensures
        match r {
            Ok(v) => {
                &&& corpus_spelled(text@, v.deep_view())
                &&& forall|rs: Seq<CharacterModel>| corpus_spelled(text@, rs) ==> rs
                    == v.deep_view()
            },
            Err(e) => {
                &&& forall|rs: Seq<CharacterModel>| !corpus_spelled(text@, rs)
                &&& e is MalformedCorpus
            },
        },
{
    let input = chars_of(text);
    let ilen = input.len();
    let q0 = skip_ws(&input, 0);
    if q0 == ilen || input[q0] != '[' {
        return Err(PipelineError::MalformedCorpus {
            detail: String::from_str("the artifact does not open as an array"),
        });
    }
    let q = skip_ws(&input, q0 + 1);
    proof {
        assert forall|rs: Seq<CharacterModel>|
            corpus_spelled(text@, rs) && rs.len() > 0 implies input@[q as int] == '{' by {
            assert(record_at_ws(input@, q0 + 1, rs[0]));
            lemma_record_head_char(input@, q0 + 1, rs[0]);
        }
    }
    if q < ilen && input[q] == ']' {
        let tail = skip_ws(&input, q + 1);
        if tail == ilen {
            let out: Vec<Character> = Vec::new();
            proof {
                assert(out.deep_view() =~= Seq::<CharacterModel>::empty());
            }
            return Ok(out);
        } else {
            return Err(PipelineError::MalformedCorpus {
                detail: String::from_str("text follows the end of the record array"),
            });
        }
    }
    let mut out: Vec<Character> = Vec::new();
    let mut cur: usize = q0 + 1;
    proof {
        assert(out.deep_view() =~= Seq::<CharacterModel>::empty());
        assert forall|zs: Seq<CharacterModel>| items_spelled(input@, cur as int, zs)
            implies corpus_spelled(text@, out.deep_view() + zs) by {
            assert(out.deep_view() + zs =~= zs);
        }
        assert forall|rs: Seq<CharacterModel>| corpus_spelled(text@, rs) implies {
            &&& out.deep_view().len() < rs.len()
            &&& rs.take(out.deep_view().len() as int) == out.deep_view()
            &&& items_spelled(input@, cur as int, rs.skip(out.deep_view().len() as int))
        } by {
            if rs.len() == 0 {
                assert(input@[q as int] == ']');
            }
            assert(rs.take(0) =~= out.deep_view());
            assert(rs.skip(0) =~= rs);
        }
    }
    loop
        invariant
            ilen == input@.len(),
            text@ == input@,
            cur <= ilen,
            out.deep_view().len() == out@.len(),
            forall|zs: Seq<CharacterModel>| items_spelled(input@, cur as int, zs)
                ==> corpus_spelled(text@, out.deep_view() + zs),
            forall|rs: Seq<CharacterModel>| corpus_spelled(text@, rs) ==> {
                &&& out.deep_view().len() < rs.len()
                &&& rs.take(out.deep_view().len() as int) == out.deep_view()
                &&& items_spelled(input@, cur as int, rs.skip(out.deep_view().len() as int))
            },
        decreases ilen - cur,
    {
        let ghost k = out.deep_view().len() as int;
        let ghost ms = out.deep_view();
        let ghost cur0 = cur as int;
        let (rec, e) = match parse_record(&input, cur) {
            Some(p) => p,
            None => {
                return Err(PipelineError::MalformedCorpus {
                    detail: String::from_str("a record entry of the artifact is malformed"),
                });
            },
        };
        let ghost rec_model = rec@;
        proof {
            assert forall|rs: Seq<CharacterModel>| corpus_spelled(text@, rs) implies rs[k]
                == rec_model by {
                assert(record_at_ws(input@, cur as int, rs.skip(k)[0]));
            }
        }
        let q2 = skip_ws(&input, e);
        if q2 < ilen && input[q2] == ',' {
            out.push(rec);
            cur = q2 + 1;
            proof {
                assert(out.deep_view() =~= ms.push(rec_model));
                assert forall|zs: Seq<CharacterModel>| items_spelled(input@, cur as int, zs)
                    implies corpus_spelled(text@, out.deep_view() + zs) by {
                    let zs2 = seq![rec_model] + zs;
                    assert(zs2.len() == zs.len() + 1);
                    assert(zs2[0] == rec_model);
                    assert(zs2.skip(1) =~= zs);
                    assert(items_spelled(input@, cur0, zs2));
                    assert(corpus_spelled(text@, ms + zs2));
                    assert(ms.push(rec_model) + zs =~= ms + zs2);
                }
                assert forall|rs: Seq<CharacterModel>| corpus_spelled(text@, rs) implies {
                    &&& out.deep_view().len() < rs.len()
                    &&& rs.take(out.deep_view().len() as int) == out.deep_view()
                    &&& items_spelled(input@, cur as int, rs.skip(out.deep_view().len() as int))
                } by {
                    let tail = rs.skip(k);
                    assert(tail[0] == rec_model);
                    if tail.len() == 1 {
                        assert(input@[q2 as int] == ']');
                    }
                    assert(tail.skip(1) =~= rs.skip(k + 1));
                    assert(rs.take(k + 1) =~= rs.take(k).push(rs[k]));
                }
            }
        } else if q2 < ilen && input[q2] == ']' {
            let tail = skip_ws(&input, q2 + 1);
            if tail == ilen {
                out.push(rec);
                proof {
                    assert(out.deep_view() =~= ms.push(rec_model));
                    let one = seq![rec_model];
                    assert(one.len() == 1 && one[0] == rec_model);
                    assert(items_spelled(input@, cur as int, one));
                    assert(corpus_spelled(text@, ms + one));
                    assert(ms + one =~= out.deep_view());
                    assert forall|rs: Seq<CharacterModel>| corpus_spelled(text@, rs) implies rs
                        == out.deep_view() by {
                        let tail2 = rs.skip(k);
                        assert(items_spelled(input@, cur as int, tail2));
                        assert(tail2[0] == rec_model);
                        assert(record_ws_end(input@, cur as int, tail2[0]) == e);
                        if tail2.len() > 1 {
                            assert(input@[q2 as int] == ',');
                            assert(false);
                        }
                        assert(rs.len() == k + 1);
                        assert(rs =~= rs.take(k).push(rs[k]));
                    }
                }
                return Ok(out);
            } else {
                proof {
                    assert forall|rs: Seq<CharacterModel>| !corpus_spelled(text@, rs) by {
                        if corpus_spelled(text@, rs) {
                            let tail2 = rs.skip(k);
                            assert(tail2[0] == rec_model);
                            if tail2.len() == 1 {
                                assert(spec_skip_ws(input@, q2 + 1) == ilen);
                            } else {
                                assert(input@[q2 as int] == ',');
                            }
                        }
                    }
                }
                return Err(PipelineError::MalformedCorpus {
                    detail: String::from_str("text follows the end of the record array"),
                });
            }
        } else {
            proof {
                assert forall|rs: Seq<CharacterModel>| !corpus_spelled(text@, rs) by {
                    if corpus_spelled(text@, rs) {
                        let tail2 = rs.skip(k);
                        assert(tail2[0] == rec_model);
                        if tail2.len() == 1 {
                            assert(input@[q2 as int] == ']');
                        } else {
                            assert(input@[q2 as int] == ',');
                        }
                    }
                }
            }
            return Err(PipelineError::MalformedCorpus {
                detail: String::from_str(
                    "a record entry is not followed by a separator or the array end",
                ),
            });
        }
    }
}

/// From a tail equation `t.skip(pos) == a + b`, the first part stands at
/// `pos` and the rest is again a tail equation.
proof fn lemma_skip_split(t: Seq<char>, pos: int, a: Seq<char>, b: Seq<char>)
    requires
        0 <= pos <= t.len(),
        t.skip(pos) == a + b,
    ensures
        pos + a.len() + b.len() == t.len(),
        t.subrange(pos, pos + a.len()) == a,
        t.skip(pos + a.len()) == b,
{
    assert(t.skip(pos).len() == t.len() - pos);
    assert forall|j: int| 0 <= j < a.len() implies t.subrange(pos, pos + a.len())[j] == a[j] by {
        assert(t.skip(pos)[j] == t[pos + j]);
        assert((a + b)[j] == a[j]);
        assert(t.subrange(pos, pos + a.len())[j] == t[pos + j]);
    }
    assert(t.subrange(pos, pos + a.len()) =~= a);
    assert forall|j: int| 0 <= j < b.len() implies t.skip(pos + a.len())[j] == b[j] by {
        assert(t.skip(pos)[a.len() + j] == t[pos + a.len() + j]);
        assert((a + b)[a.len() + j] == b[j]);
        assert(t.skip(pos + a.len())[j] == t[pos + a.len() + j]);
    }
    assert(t.skip(pos + a.len()) =~= b);
}

} // verus!
