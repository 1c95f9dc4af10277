use crate::escape::hex_val;
use crate::record::{record_json, record_to_json, Character};
use crate::text::{push_str_chars, string_of};
use vstd::prelude::*;

verus! {

/// The action-metadata line of one bulk operation: the target index and the
/// operation's own identifier, spliced verbatim.
pub open spec fn meta_line(index: Seq<char>, id: Seq<char>) -> Seq<char> {
    "{ \"index\": { \"_index\": \""@ + index + "\", \"_id\": \""@ + id + "\" } }"@
}

/// The written form of an operation identifier: 36 characters, hyphens at
/// the four fixed places, lower-case hexadecimal digits everywhere else.
pub open spec fn is_hyphenated_id(s: Seq<char>) -> bool {
    &&& s.len() == 36
    &&& forall|i: int|
        0 <= i < 36 ==> (if i == 8 || i == 13 || i == 18 || i == 23 {
            s[i] == '-'
        } else {
            hex_val(#[trigger] s[i]) >= 0
        })
}

/// Relies on `uuid::Uuid::new_v4` and its `Display` form: a fresh random
/// 128-bit identifier, written as 36 characters of hyphenated lower-case
/// hexadecimal. Nothing relates two calls: each draws anew. The call aborts
/// only if the operating system's random source fails, which no input can
/// bring about.
#[verifier::external_body]
pub fn fresh_id() -> (r: String)
    ensures
        is_hyphenated_id(r@),
{
    uuid::Uuid::new_v4().to_string()
}

/// A bulk-operation payload: for every record of the corpus, one metadata
/// line followed by the record's document line. Lines are derived on
/// demand, so the payload need never stand in memory as one buffer.
pub struct BulkPayload {
    pub index_name: String,
    pub ids: Vec<String>,
    pub records: Vec<Character>,
}

impl BulkPayload {
    /// One identifier for each record.
    pub open spec fn wf(self) -> bool {
        self.ids@.len() == self.records@.len()
    }

    /// The payload line at position `i`: metadata at even positions, each
    /// followed by its record's one-line JSON document.
    pub open spec fn spec_line(self, i: int) -> Seq<char> {
        if i % 2 == 0 {
            meta_line(self.index_name@, self.ids@[i / 2]@)
        } else {
            record_json(self.records@[i / 2]@)
        }
    }

    /// Pairs every record of the corpus with a freshly drawn identifier,
    /// each in the hyphenated written form.
    pub fn encode(index_name: String, records: Vec<Character>) -> (r: BulkPayload)
        ensures
            r.wf(),
            r.index_name == index_name,
            r.records == records,
            r.ids@.len() == records@.len(),
            forall|i: int| 0 <= i < r.ids@.len() ==> is_hyphenated_id(#[trigger] r.ids@[i]@),
    {
        let n = records.len();
        let mut ids: Vec<String> = Vec::new();
        let mut i: usize = 0;
        while i < n
            invariant
                i <= n,
                ids@.len() == i,
                forall|j: int| 0 <= j < i ==> is_hyphenated_id(#[trigger] ids@[j]@),
            decreases n - i,
        {
            ids.push(fresh_id());
            i = i + 1;
        }
        BulkPayload { index_name, ids, records }
    }

    /// A corpus of N records yields exactly 2N lines.
    pub fn line_count(&self) -> (r: usize)
        requires
            self.wf(),
            self.records@.len() <= usize::MAX / 2,
        ensures
            r == 2 * self.records@.len(),
    {
        2 * self.records.len()
    }

    /// Derives the payload line at position `i`.
    pub fn line_at(&self, i: usize) -> (r: String)
        requires
            self.wf(),
            i < 2 * self.records@.len(),
        ensures
            r@ == self.spec_line(i as int),
    {
        let j = i / 2;
        if i % 2 == 0 {
            let mut out: Vec<char> = Vec::new();
            push_str_chars(&mut out, "{ \"index\": { \"_index\": \"");
            push_str_chars(&mut out, self.index_name.as_str());
            push_str_chars(&mut out, "\", \"_id\": \"");
            push_str_chars(&mut out, self.ids[j].as_str());
            push_str_chars(&mut out, "\" } }");
            proof {
                assert(out@ =~= meta_line(self.index_name@, self.ids@[i as int / 2]@));
            }
            string_of(out)
        } else {
            record_to_json(&self.records[j])
        }
    }

    /// All lines of the payload, in order.
    pub fn to_lines(&self) -> (r: Vec<String>)
        requires
            self.wf(),
            self.records@.len() <= usize::MAX / 2,
        ensures
            r@.len() == 2 * self.records@.len(),
            forall|i: int| 0 <= i < r@.len() ==> r@[i]@ == self.spec_line(i),
    {
        let total = self.line_count();
        let mut out: Vec<String> = Vec::new();
        let mut i: usize = 0;
        while i < total
            invariant
                self.wf(),
                self.records@.len() <= usize::MAX / 2,
                total == 2 * self.records@.len(),
                i <= total,
                out@.len() == i,
                forall|j: int| 0 <= j < i ==> out@[j]@ == self.spec_line(j),
            decreases total - i,
        {
            out.push(self.line_at(i));
            i = i + 1;
        }
        out
    }
}

/// Two metadata lines over one index agree only on one identifier.
pub proof fn lemma_meta_line_injective(index: Seq<char>, a: Seq<char>, b: Seq<char>)
    requires
        meta_line(index, a) == meta_line(index, b),
    ensures
        a == b,
{
    let p1 = "{ \"index\": { \"_index\": \""@;
    let p2 = "\", \"_id\": \""@;
    let p3 = "\" } }"@;
    let off = p1.len() + index.len() + p2.len();
    assert(meta_line(index, a).len() == off + a.len() + p3.len());
    assert(meta_line(index, b).len() == off + b.len() + p3.len());
    assert(a.len() == b.len());
    assert forall|j: int| 0 <= j < a.len() implies a[j] == b[j] by {
        assert(meta_line(index, a)[off + j] == a[j]);
        assert(meta_line(index, b)[off + j] == b[j]);
    }
    assert(a =~= b);
}

/// Within one encode pass, distinct identifiers give pairwise distinct
/// metadata lines: no two operations of the payload address one another's
/// slot.
pub proof fn lemma_distinct_ids_distinct_meta(p: BulkPayload)
    requires
        p.wf(),
        forall|i: int, j: int| 0 <= i < j < p.ids@.len() ==> p.ids@[i]@ != p.ids@[j]@,
    ensures
        forall|i: int, j: int|
            0 <= i < j < p.records@.len() ==> #[trigger] p.spec_line(2 * i) != #[trigger] p.spec_line(2 * j),
{
    assert forall|i: int, j: int| 0 <= i < j < p.records@.len() implies #[trigger] p.spec_line(
        2 * i,
    ) != #[trigger] p.spec_line(2 * j) by {
        assert((2 * i) % 2 == 0 && (2 * i) / 2 == i);
        assert((2 * j) % 2 == 0 && (2 * j) / 2 == j);
        if p.spec_line(2 * i) == p.spec_line(2 * j) {
            lemma_meta_line_injective(p.index_name@, p.ids@[i]@, p.ids@[j]@);
        }
    }
}

} // verus!
