use exa_vm::value::{ParseError, Value};

#[test]
fn test_new_number_or_register_id() {
    let number = "-9999";
    let hardware_register_id = "#NERV";
    let exa_register_id = "X";

    let expected_number_result = Ok(Value::Number(-9999));
    let expected_hardware_register_id_result = Ok(Value::RegisterId("#NERV".to_string()));
    let expected_exa_register_id_result = Ok(Value::RegisterId("X".to_string()));

    let number_result = Value::new_number_or_register_id(number);
    let hardware_register_id_result = Value::new_number_or_register_id(hardware_register_id);
    let exa_register_id_result = Value::new_number_or_register_id(exa_register_id);

    assert_eq!(number_result, expected_number_result);
    assert_eq!(
        hardware_register_id_result,
        expected_hardware_register_id_result
    );
    assert_eq!(exa_register_id_result, expected_exa_register_id_result);
}

#[test]
fn test_new_number_or_register_id_err() {
    let invalid_id1 = "#NERVX";
    let invalid_id2 = "";
    let invalid_id3 = "#";
    let invalid_id4 = "#NER";

    let result1 = Value::new_number_or_register_id(invalid_id1);
    let result2 = Value::new_number_or_register_id(invalid_id2);
    let result3 = Value::new_number_or_register_id(invalid_id3);
    let result4 = Value::new_number_or_register_id(invalid_id4);

    assert!(result1.is_err());
    assert!(result2.is_err());
    assert!(result3.is_err());
    assert!(result4.is_err());
}

#[test]
fn test_new_register_id() {
    let hardware_register_id = "#NERV";
    let exa_register_id = "X";

    let expected_hardware_register_id_result = Ok(Value::RegisterId("#NERV".to_string()));
    let expected_exa_register_id_result = Ok(Value::RegisterId("X".to_string()));

    let hardware_register_id_result = Value::new_register_id(hardware_register_id);
    let exa_register_id_result = Value::new_register_id(exa_register_id);

    assert_eq!(
        hardware_register_id_result,
        expected_hardware_register_id_result
    );
    assert_eq!(exa_register_id_result, expected_exa_register_id_result);
}

#[test]
fn test_new_register_id_err() {
    let invalid_id1 = "#NERVX";
    let invalid_id2 = "1";
    let invalid_id3 = "";
    let invalid_id4 = "#";
    let invalid_id5 = "#NER";
    let invalid_id6 = "N";

    let result1 = Value::new_register_id(invalid_id1);
    let result2 = Value::new_register_id(invalid_id2);
    let result3 = Value::new_register_id(invalid_id3);
    let result4 = Value::new_register_id(invalid_id4);
    let result5 = Value::new_register_id(invalid_id5);
    let result6 = Value::new_register_id(invalid_id6);

    assert!(result1.is_err());
    assert!(result2.is_err());
    assert!(result3.is_err());
    assert!(result4.is_err());
    assert!(result5.is_err());
    assert!(result6.is_err());
}

#[test]
fn test_new_labal_id() {
    let id = "JUMP_TO_THIS";

    let expected = Ok(Value::LabelId("JUMP_TO_THIS".to_string()));

    let result = Value::new_label_id(id);

    assert_eq!(result, expected);
}

#[test]
fn test_new_label_id_err() {
    let invalid_id = "";

    let result = Value::new_label_id(invalid_id);

    assert!(result.is_err());
}

#[test]
fn test_parse_from_str_to_keyword() {
    let keyword_string: String = "keyword".to_string();

    let keyword: Value = keyword_string.parse().unwrap();

    assert_eq!(Value::Keyword("keyword".to_string()), keyword);
}

#[test]
fn test_parse_from_empty_str_err() {
    let empty_string = String::new();

    let value_err = empty_string.parse::<Value>();

    assert_eq!(value_err, Err(ParseError));
}

#[test]
fn test_from_isize_to_number() {
    let number = Value::Number(-127);

    let new_number: Value = Value::from(-127);

    assert_eq!(number, new_number);
}

#[test]
fn test_to_from_number_and_isize() {
    let number = Value::Number(-127);

    let number_value: i64 = number.to_number();

    assert_eq!(-127, number_value);
}

#[test]
fn test_from_number_to_string() {
    let number = Value::Number(-127);

    let number_string: String = number.to_text();

    assert_eq!("-127".to_string(), number_string);
}

#[test]
fn test_from_non_number_to_string() {
    let keyword = Value::Keyword("keyword".to_string());

    let keyword_string: String = keyword.to_text();

    assert_eq!("keyword".to_string(), keyword_string);
}
