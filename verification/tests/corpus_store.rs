use starwars_search::corpus::{corpus_from_json, corpus_store_round_trip, corpus_to_json};
use starwars_search::errors::PipelineError;
use starwars_search::record::Character;

fn rec(name: &str, portrayal: &str, description: &str) -> Character {
    Character {
        name: String::from(name),
        portrayal: String::from(portrayal),
        description: String::from(description),
    }
}

#[test]
fn round_trip_keeps_every_field() {
    let corpus = vec![
        rec("Luke Skywalker", "Mark Hamill", "A farm boy turned Jedi."),
        rec("Yoda", "Frank Oz", "A wise master."),
        rec("Leia Organa", "Carrie Fisher", "A princess."),
    ];
    let text = corpus_to_json(&corpus);
    let back = corpus_from_json(text.as_str()).expect("the written artifact must read back");
    assert_eq!(back, corpus);
}

#[test]
fn round_trip_keeps_special_characters() {
    let corpus = vec![
        rec("quote \" and backslash \\", "line\nbreak", "tab\tand control\u{1}"),
        rec("", "unicode é ✓", "trailing newline\n"),
    ];
    let text = corpus_to_json(&corpus);
    let back = corpus_from_json(text.as_str()).expect("the written artifact must read back");
    assert_eq!(back, corpus);
}

#[test]
fn round_trip_helper_returns_the_corpus() {
    let corpus = vec![rec("Chewbacca", "Peter Mayhew", "A Wookiee warrior.")];
    assert_eq!(corpus_store_round_trip(&corpus), corpus);
}

#[test]
fn empty_corpus_writes_an_empty_array() {
    let corpus: Vec<Character> = vec![];
    let text = corpus_to_json(&corpus);
    assert_eq!(text, "[]");
    let back = corpus_from_json("[]").expect("an empty array must read back");
    assert_eq!(back.len(), 0);
}

#[test]
fn artifact_format_is_one_record_document_per_line() {
    let corpus = vec![rec("Luke", "Mark", "Jedi"), rec("Yoda", "Frank", "Master")];
    let text = corpus_to_json(&corpus);
    assert_eq!(
        text,
        "[\n{\"name\":\"Luke\",\"portrayal\":\"Mark\",\"description\":\"Jedi\"},\n\
         {\"name\":\"Yoda\",\"portrayal\":\"Frank\",\"description\":\"Master\"}\n]"
    );
}

#[test]
fn control_characters_are_escaped_in_the_artifact() {
    let corpus = vec![rec("a\nb", "c", "d")];
    let text = corpus_to_json(&corpus);
    assert!(text.contains("a\\u000ab"));
    assert!(!text.contains("a\nb"));
}

#[test]
fn any_json_layout_of_the_artifact_is_read() {
    let compact =
        "[{\"name\":\"Luke Skywalker\",\"portrayal\":\"Mark Hamill\",\"description\":\"A farm boy turned Jedi.\"}]";
    let one = corpus_from_json(compact).expect("a one-line record array must read");
    assert_eq!(one, vec![rec("Luke Skywalker", "Mark Hamill", "A farm boy turned Jedi.")]);

    let spaced = " [ { \"name\" : \"a\" , \"portrayal\" : \"b\" , \"description\" : \"c\" } ,\n\
        {\"name\":\"d\",  \"portrayal\":\"e\",\n\t\"description\":\"f\"} ]\n";
    let two = corpus_from_json(spaced).expect("an indented record array must read");
    assert_eq!(two, vec![rec("a", "b", "c"), rec("d", "e", "f")]);

    let empty = corpus_from_json("[\n]").expect("an empty array over two lines must read");
    assert_eq!(empty.len(), 0);

    let padded = corpus_from_json(" [ ] ").expect("a padded empty array must read");
    assert_eq!(padded.len(), 0);
}

#[test]
fn whitespace_is_not_stripped_inside_field_values() {
    let text = "[{\"name\":\" a b \",\"portrayal\":\"c\",\"description\":\"d\"}]";
    let back = corpus_from_json(text).expect("the artifact must read");
    assert_eq!(back[0].name, " a b ");
}

#[test]
fn malformed_artifacts_are_rejected() {
    for bad in [
        "",
        "[",
        "{}",
        "[]extra",
        "[\n{\"name\":\"a\"}\n]",
        "[\n{\"name\":\"a\",\"portrayal\":\"b\",\"description\":\"c\"}\n",
        "[\n{\"name\":\"a\",\"portrayal\":\"b\",\"description\":\"c\"},\n]",
        "[\n{\"name\":\"a\",\"portrayal\":\"b\",\"description\":\"c\"}\n]]",
        "[\n{\"name\":\"unterminated,\"portrayal\":\"b\",\"description\":\"c\"}\n]",
    ] {
        match corpus_from_json(bad) {
            Ok(_) => panic!("a malformed artifact was accepted"),
            Err(PipelineError::MalformedCorpus { .. }) => {}
            Err(_) => panic!("a malformed artifact must fail as a malformed corpus"),
        }
    }
}
