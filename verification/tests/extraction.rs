use starwars_search::extract::{extract_records, rows_to_records};
use starwars_search::record::Character;

fn cell(text: &str) -> String {
    String::from(text)
}

#[test]
fn three_cell_row_yields_one_record() {
    let html = "<html><body><table class=\"wikitable\"><tbody>\
        <tr><td>Luke Skywalker\n</td><td>Mark Hamill\n</td><td>A farm boy turned Jedi.\n</td></tr>\
        </tbody></table></body></html>";
    let records = extract_records(html);
    assert_eq!(records.len(), 1);
    assert_eq!(records[0].name, "Luke Skywalker");
    assert_eq!(records[0].portrayal, "Mark Hamill");
    assert_eq!(records[0].description, "A farm boy turned Jedi.");
}

#[test]
fn rows_with_other_cell_counts_are_dropped() {
    let html = "<html><body><table class=\"wikitable\"><tbody>\
        <tr><td>only\n</td><td>two\n</td></tr>\
        <tr><td>Yoda\n</td><td>Frank Oz\n</td><td>A wise master.\n</td></tr>\
        <tr><td>a\n</td><td>b\n</td><td>c\n</td><td>d\n</td></tr>\
        <tr><td>Leia Organa\n</td><td>Carrie Fisher\n</td><td>A princess.\n</td></tr>\
        </tbody></table></body></html>";
    let records = extract_records(html);
    assert_eq!(records.len(), 2);
    assert_eq!(records[0].name, "Yoda");
    assert_eq!(records[1].name, "Leia Organa");
}

#[test]
fn page_without_data_table_yields_nothing() {
    let html = "<html><body><p>No table here.</p></body></html>";
    let records = extract_records(html);
    assert_eq!(records.len(), 0);
}

#[test]
fn record_count_matches_three_cell_row_count() {
    let rows: Vec<Vec<String>> = vec![
        vec![cell("a\n")],
        vec![cell("Han Solo\n"), cell("Harrison Ford\n"), cell("A smuggler.\n")],
        vec![],
        vec![cell("x\n"), cell("y\n"), cell("z\n"), cell("w\n")],
        vec![cell("C-3PO\n"), cell("Anthony Daniels\n"), cell("A protocol droid.\n")],
    ];
    let three_cell_rows = rows.iter().filter(|r| r.len() == 3).count();
    let records = rows_to_records(&rows);
    assert_eq!(records.len(), three_cell_rows);
    assert_eq!(records.len(), 2);
}

#[test]
fn one_trailing_character_is_stripped_from_each_cell() {
    let rows: Vec<Vec<String>> = vec![vec![cell("Rey\n"), cell("Daisy Ridley\n"), cell("\n")]];
    let records = rows_to_records(&rows);
    assert_eq!(
        records[0],
        Character {
            name: String::from("Rey"),
            portrayal: String::from("Daisy Ridley"),
            description: String::from(""),
        }
    );
}
