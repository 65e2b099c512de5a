use exa_vm::file::generator::Generator;
use exa_vm::file::id_generator::IdGenerator;
use exa_vm::file::File;
use exa_vm::value::Value;

fn sample_file() -> File {
    File::new_with_contents(
        "id",
        &[
            String::from("keyword1"),
            String::from("666"),
            String::from("keyword2"),
            String::from("333"),
            String::from("keyword3"),
        ],
    )
}

#[test]
fn test_adjust_index_by_positive_2() {
    let mut file = sample_file();

    file.adjust_index(2);

    assert_eq!(file.current(), Some(Value::Keyword(String::from("keyword2"))));
}

#[test]
fn test_adjust_index_by_positive_9999_max_capped() {
    let mut file = sample_file();

    file.adjust_index(9_999);

    assert!(file.is_eof());
    assert_eq!(file.len(), 5);
}

#[test]
fn test_adjust_index_by_negative_1() {
    let mut file = sample_file();

    file.adjust_index(2);
    file.adjust_index(-1);

    assert_eq!(file.current(), Some(Value::Number(666)));
}

#[test]
fn test_adjust_index_by_negative_9999_min_capped() {
    let mut file = sample_file();

    file.adjust_index(2);
    file.adjust_index(-9_999);

    assert_eq!(file.current(), Some(Value::Keyword(String::from("keyword1"))));
}

#[test]
fn test_append() {
    let mut file = File::new_with_contents(
        "id",
        &[
            String::from("keyword1"),
            String::from("666"),
            String::from("keyword2"),
            String::from("333"),
        ],
    );

    file.append(&Value::Keyword(String::from("appending")));

    assert_eq!(file.len(), 5);
    assert_eq!(file.current(), Some(Value::Keyword(String::from("keyword1"))));
    file.adjust_index(4);
    assert_eq!(file.current(), Some(Value::Keyword(String::from("appending"))));
}

#[test]
fn test_remove_current_from_middle() {
    let mut file = sample_file();

    file.adjust_index(2);
    file.remove_current();

    assert_eq!(file.len(), 4);
    assert_eq!(file.current(), Some(Value::Number(333)));
}

#[test]
fn test_remove_current_from_last_item_index() {
    let mut file = sample_file();

    file.adjust_index(4);
    file.remove_current();

    assert_eq!(file.len(), 4);
    assert!(file.is_eof());
}

#[test]
fn test_replace_current_from_middle() {
    let mut file = sample_file();

    file.adjust_index(2);
    file.replace_current(&Value::Number(0));

    assert_eq!(file.len(), 5);
    assert_eq!(file.current(), Some(Value::Number(0)));
    file.adjust_index(1);
    assert_eq!(file.current(), Some(Value::Number(333)));
}

#[test]
fn test_replace_current_from_eof() {
    let mut file = sample_file();

    file.adjust_index(9_999);
    file.replace_current(&Value::Number(0));

    assert_eq!(file.len(), 6);
    assert_eq!(file.current(), Some(Value::Number(0)));
}

#[test]
fn test_generate_files_with_multiple_generators() {
    let mut file_generator = Generator::new(IdGenerator::default());

    let result_1 = file_generator.generate();
    let result_2 = file_generator.generate();
    let result_3 = file_generator.generate();
    let result_4 = file_generator.generate();

    assert_eq!(result_1.id, "400");
    assert_eq!(result_2.id, "401");
    assert_eq!(result_3.id, "402");
    assert_eq!(result_4.id, "403");
}

#[test]
fn test_next() {
    let mut id_generator = IdGenerator::default();

    assert_eq!(id_generator.next(), Some(String::from("400")));
    assert_eq!(id_generator.next(), Some(String::from("401")));
}

#[test]
fn test_next_avoiding_400_402_and_403() {
    let mut id_generator = IdGenerator::new(&[400, 402, 403]);

    assert_eq!(id_generator.next(), Some(String::from("401")));
    assert_eq!(id_generator.next(), Some(String::from("404")));
    assert_eq!(id_generator.next(), Some(String::from("405")));
}

#[test]
fn test_file_id_reads_back_as_keyword() {
    let file = File::new("400");

    assert_eq!(file.id(), Value::Keyword(String::from("400")));
}

#[test]
fn test_new_file_is_empty() {
    let file = File::new("200");

    assert!(file.is_empty());
    assert!(file.is_eof());
    assert_eq!(file.len(), 0);
    assert_eq!(file.current(), None);
}
