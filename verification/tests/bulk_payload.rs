use starwars_search::bulk::BulkPayload;
use starwars_search::record::Character;

fn rec(name: &str, portrayal: &str, description: &str) -> Character {
    Character {
        name: String::from(name),
        portrayal: String::from(portrayal),
        description: String::from(description),
    }
}

#[test]
fn payload_has_two_lines_per_record_in_corpus_order() {
    let corpus = vec![rec("Luke", "Mark", "Jedi"), rec("Yoda", "Frank", "Master")];
    let payload = BulkPayload::encode(String::from("starwars"), corpus);
    assert_eq!(payload.line_count(), 4);
    let lines = payload.to_lines();
    assert_eq!(lines.len(), 4);
    for i in 0..2 {
        let meta = &lines[2 * i];
        assert!(meta.starts_with("{ \"index\": { \"_index\": \"starwars\", \"_id\": \""));
        assert!(meta.ends_with("\" } }"));
    }
    assert_eq!(lines[1], "{\"name\":\"Luke\",\"portrayal\":\"Mark\",\"description\":\"Jedi\"}");
    assert_eq!(lines[3], "{\"name\":\"Yoda\",\"portrayal\":\"Frank\",\"description\":\"Master\"}");
}

#[test]
fn document_line_is_the_exact_record_document() {
    let corpus = vec![rec("Luke Skywalker", "Mark Hamill", "A farm boy turned Jedi.")];
    let payload = BulkPayload::encode(String::from("starwars"), corpus);
    let lines = payload.to_lines();
    assert_eq!(
        lines[1],
        "{\"name\":\"Luke Skywalker\",\"portrayal\":\"Mark Hamill\",\"description\":\"A farm boy turned Jedi.\"}"
    );
}

#[test]
fn one_line_artifact_feeds_the_encoder_through_to_the_document_line() {
    let artifact =
        "[{\"name\":\"Luke Skywalker\",\"portrayal\":\"Mark Hamill\",\"description\":\"A farm boy turned Jedi.\"}]";
    let records = starwars_search::corpus::corpus_from_json(artifact)
        .expect("the one-line record array must read");
    let payload = BulkPayload::encode(String::from("starwars"), records);
    let lines = payload.to_lines();
    assert_eq!(lines.len(), 2);
    assert_eq!(
        lines[1],
        "{\"name\":\"Luke Skywalker\",\"portrayal\":\"Mark Hamill\",\"description\":\"A farm boy turned Jedi.\"}"
    );
}

#[test]
fn identifiers_are_fresh_well_formed_and_pairwise_distinct() {
    let mut corpus = Vec::new();
    for i in 0..100 {
        corpus.push(rec(&format!("name{}", i), "someone", "something"));
    }
    let payload = BulkPayload::encode(String::from("starwars"), corpus);
    assert_eq!(payload.ids.len(), 100);
    for id in &payload.ids {
        assert_eq!(id.chars().count(), 36);
        assert!(id.chars().all(|c| c == '-' || c.is_ascii_hexdigit()));
    }
    for i in 0..payload.ids.len() {
        for j in (i + 1)..payload.ids.len() {
            assert_ne!(payload.ids[i], payload.ids[j]);
        }
    }
}

#[test]
fn metadata_line_carries_its_own_identifier() {
    let corpus = vec![rec("Luke", "Mark", "Jedi")];
    let payload = BulkPayload::encode(String::from("starwars"), corpus);
    let meta = payload.line_at(0);
    assert!(meta.contains(payload.ids[0].as_str()));
}

#[test]
fn metadata_line_has_the_exact_wire_form() {
    let payload = BulkPayload {
        index_name: String::from("starwars"),
        ids: vec![String::from("00000000-0000-4000-8000-000000000001")],
        records: vec![rec("Luke", "Mark", "Jedi")],
    };
    assert_eq!(
        payload.line_at(0),
        "{ \"index\": { \"_index\": \"starwars\", \"_id\": \"00000000-0000-4000-8000-000000000001\" } }"
    );
}

#[test]
fn empty_corpus_yields_an_empty_payload() {
    let payload = BulkPayload::encode(String::from("starwars"), Vec::new());
    assert_eq!(payload.line_count(), 0);
    let lines = payload.to_lines();
    assert!(lines.is_empty());
    let body: String = lines.iter().map(|l| format!("{}\n", l)).collect();
    assert_eq!(body, "");
}
