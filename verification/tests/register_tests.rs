use exa_vm::register::{
    AccessError, AccessMode, BasicRegister, HardwareRegister, Register, RegisterWriteError,
};
use exa_vm::value::Value;

#[test]
fn mod_test_read_number() {
    let value = Value::from(666);

    let register = Register::new_with_value("X", &value).unwrap();

    assert_eq!(register.read(), Some(value));
}

#[test]
fn mod_test_read_keyword() {
    let value = Value::Keyword(String::from("keyword"));

    let register = Register::new_with_value("X", &value).unwrap();

    assert_eq!(register.read(), Some(value));
}

#[test]
fn mod_test_write_with_number() {
    let mut register = Register::new("X");

    let value = Value::Number(666);

    let result = register.write(&value);

    assert_eq!(register.read(), Some(value));
    assert!(result.is_ok());
}

#[test]
fn mod_test_write_with_number_too_small_err() {
    let mut register = Register::new_with_value("X", &Value::Number(666)).unwrap();
    let value = Value::Number(-10_000);

    let result = register.write(&value);

    assert_eq!(register.read(), Some(Value::Number(666)));
    assert_eq!(result, Err(RegisterWriteError::NumberValueTooSmall(value)));
}

#[test]
fn mod_test_write_with_number_too_large_err() {
    let mut register = Register::new_with_value("X", &Value::Number(666)).unwrap();
    let value = Value::Number(10_000);

    let result = register.write(&value);

    assert_eq!(register.read(), Some(Value::Number(666)));
    assert_eq!(result, Err(RegisterWriteError::NumberValueTooLarge(value)));
}

#[test]
fn mod_test_write_with_keyword() {
    let mut register = Register::new("X");
    let value = Value::Keyword(String::from("keyword"));

    let result = register.write(&value);

    assert_eq!(register.read(), Some(value));
    assert!(result.is_ok());
}

#[test]
fn mod_test_write_with_label_id_err() {
    let mut register = Register::new("X");
    let value = Value::LabelId(String::from("LABEL"));

    let result = register.write(&value);

    assert_eq!(register.read(), None);
    assert_eq!(result, Err(RegisterWriteError::WriteWithLabelId(value)));
}

#[test]
fn mod_test_write_with_register_id_err() {
    let mut register = Register::new("X");
    let value = Value::RegisterId(String::from("#NERV"));

    let result = register.write(&value);

    assert_eq!(register.read(), None);
    assert_eq!(result, Err(RegisterWriteError::WriteWithRegisterId(value)));
}

#[test]
fn mod_test_clear() {
    let mut register =
        Register::new_with_value("X", &Value::Keyword(String::from("keyword"))).unwrap();

    register.clear();

    assert_eq!(register.read(), None);
}

#[test]
fn basic_test_read_number() {
    let value = Value::from(666);

    let register = BasicRegister::new_with_value("X", &value).unwrap();

    assert_eq!(register.read(), Ok(Some(value.clone())));
    assert_eq!(register.read(), Ok(Some(value)));
}

#[test]
fn basic_test_read_keyword() {
    let value = Value::Keyword(String::from("keyword"));

    let register = BasicRegister::new_with_value("X", &value).unwrap();

    assert_eq!(register.read(), Ok(Some(value.clone())));
    assert_eq!(register.read(), Ok(Some(value)));
}

#[test]
fn basic_test_read_mut_number() {
    let value = Value::from(666);

    let mut register = BasicRegister::new_with_value("X", &value).unwrap();

    assert_eq!(register.read_mut(), Ok(Some(value)));
    assert_eq!(register.read(), Ok(None));
}

#[test]
fn basic_test_read_mut_keyword() {
    let value = Value::Keyword(String::from("keyword"));

    let mut register = BasicRegister::new_with_value("X", &value).unwrap();

    assert_eq!(register.read_mut(), Ok(Some(value)));
    assert_eq!(register.read(), Ok(None));
}

#[test]
fn basic_test_write_with_number() {
    let mut register = BasicRegister::new("X");

    let value = Value::Number(666);

    let result = register.write(&value);

    assert_eq!(register.read(), Ok(Some(value)));
    assert!(result.is_ok());
}

#[test]
fn basic_test_write_with_number_too_small_err() {
    let mut register = BasicRegister::new_with_value("X", &Value::Number(666)).unwrap();
    let value = Value::Number(-10_000);

    let result = register.write(&value);

    assert_eq!(register.read(), Ok(Some(Value::Number(666))));
    assert_eq!(result, Err(AccessError::NumberValueTooSmall(value)));
}

#[test]
fn basic_test_write_with_number_too_large_err() {
    let mut register = BasicRegister::new_with_value("X", &Value::Number(666)).unwrap();
    let value = Value::Number(10_000);

    let result = register.write(&value);

    assert_eq!(register.read(), Ok(Some(Value::Number(666))));
    assert_eq!(result, Err(AccessError::NumberValueTooLarge(value)));
}

#[test]
fn basic_test_write_with_keyword() {
    let mut register = BasicRegister::new("X");
    let value = Value::Keyword(String::from("keyword"));

    let result = register.write(&value);

    assert_eq!(register.read(), Ok(Some(value)));
    assert!(result.is_ok());
}

#[test]
fn basic_test_write_with_label_id_err() {
    let mut register = BasicRegister::new("X");
    let value = Value::LabelId(String::from("LABEL"));

    let result = register.write(&value);

    assert_eq!(register.read(), Ok(None));
    assert_eq!(result, Err(AccessError::WriteWithLabelId(value)));
}

#[test]
fn basic_test_write_with_register_id_err() {
    let mut register = BasicRegister::new("X");
    let value = Value::RegisterId(String::from("#NERV"));

    let result = register.write(&value);

    assert_eq!(register.read(), Ok(None));
    assert_eq!(result, Err(AccessError::WriteWithRegisterId(value)));
}

#[test]
fn basic_test_clear() {
    let mut register =
        BasicRegister::new_with_value("X", &Value::Keyword(String::from("keyword"))).unwrap();

    register.clear();

    assert_eq!(register.read(), Ok(None));
}

#[test]
fn hardware_test_read_number() {
    let values = [Value::from(666), Value::from(333)];

    let register = HardwareRegister::new_with_values("X", AccessMode::ReadOnly, &values).unwrap();

    assert_eq!(register.read(), Ok(Some(Value::from(666))));
    assert_eq!(register.read(), Ok(Some(Value::from(666))));
}

#[test]
fn hardware_test_read_number_write_only_err() {
    let values = [Value::from(666), Value::from(333)];

    let register = HardwareRegister::new_with_values("X", AccessMode::WriteOnly, &values).unwrap();

    assert_eq!(register.read(), Err(AccessError::InvalidReadAccess));
}

#[test]
fn hardware_test_read_keyword() {
    let values = [Value::Keyword(String::from("keyword")), Value::from(666)];

    let register = HardwareRegister::new_with_values("X", AccessMode::ReadOnly, &values).unwrap();

    assert_eq!(
        register.read(),
        Ok(Some(Value::Keyword(String::from("keyword"))))
    );
}

#[test]
fn hardware_test_read_mut_number() {
    let values = [Value::from(666), Value::from(333)];

    let mut register =
        HardwareRegister::new_with_values("X", AccessMode::ReadOnly, &values).unwrap();

    assert_eq!(register.read_mut(), Ok(Some(Value::from(666))));
    assert_eq!(register.read(), Ok(Some(Value::from(333))));
}

#[test]
fn hardware_test_read_mut_number_write_only_err() {
    let values = [Value::from(666), Value::from(333)];

    let mut register =
        HardwareRegister::new_with_values("X", AccessMode::WriteOnly, &values).unwrap();

    assert_eq!(register.read_mut(), Err(AccessError::InvalidReadAccess));
}

#[test]
fn hardware_test_read_mut_keyword() {
    let values = [Value::Keyword(String::from("keyword")), Value::from(666)];

    let mut register =
        HardwareRegister::new_with_values("X", AccessMode::ReadOnly, &values).unwrap();

    assert_eq!(
        register.read_mut(),
        Ok(Some(Value::Keyword(String::from("keyword"))))
    );
    assert_eq!(register.read(), Ok(Some(Value::from(666))));
}

#[test]
fn hardware_test_write_with_number() {
    let mut register = HardwareRegister::new("X", AccessMode::WriteOnly);

    let value = Value::Number(666);

    let result = register.write(&value);

    assert!(result.is_ok());
    let expected =
        HardwareRegister::new_with_values("X", AccessMode::WriteOnly, &[value]).unwrap();
    assert_eq!(register, expected);
}

#[test]
fn hardware_test_write_with_number_too_small_err() {
    let mut register = HardwareRegister::new("X", AccessMode::WriteOnly);
    let value = Value::Number(-10_000);

    let result = register.write(&value);

    assert_eq!(register, HardwareRegister::new("X", AccessMode::WriteOnly));
    assert_eq!(result, Err(AccessError::NumberValueTooSmall(value)));
}

#[test]
fn hardware_test_write_with_number_too_large_err() {
    let mut register = HardwareRegister::new("X", AccessMode::WriteOnly);
    let value = Value::Number(10_000);

    let result = register.write(&value);

    assert_eq!(register, HardwareRegister::new("X", AccessMode::WriteOnly));
    assert_eq!(result, Err(AccessError::NumberValueTooLarge(value)));
}

#[test]
fn hardware_test_write_with_number_read_only_noop() {
    let mut register = HardwareRegister::new("X", AccessMode::ReadOnly);
    let value = Value::Number(666);

    let result = register.write(&value);

    assert_eq!(register, HardwareRegister::new("X", AccessMode::ReadOnly));
    assert!(result.is_ok());
}

#[test]
fn hardware_test_write_with_keyword() {
    let mut register = HardwareRegister::new("X", AccessMode::WriteOnly);
    let value = Value::Keyword(String::from("keyword"));

    let result = register.write(&value);

    assert!(result.is_ok());
    let expected =
        HardwareRegister::new_with_values("X", AccessMode::WriteOnly, &[value]).unwrap();
    assert_eq!(register, expected);
}

#[test]
fn hardware_test_write_with_label_id_err() {
    let mut register = HardwareRegister::new("X", AccessMode::WriteOnly);
    let value = Value::LabelId(String::from("LABEL"));

    let result = register.write(&value);

    assert_eq!(register, HardwareRegister::new("X", AccessMode::WriteOnly));
    assert_eq!(result, Err(AccessError::WriteWithLabelId(value)));
}

#[test]
fn hardware_test_write_with_register_id_err() {
    let mut register = HardwareRegister::new("X", AccessMode::WriteOnly);
    let value = Value::RegisterId(String::from("#NERV"));

    let result = register.write(&value);

    assert_eq!(register, HardwareRegister::new("X", AccessMode::WriteOnly));
    assert_eq!(result, Err(AccessError::WriteWithRegisterId(value)));
}

#[test]
fn hardware_test_clear() {
    let values = [Value::from(666), Value::from(333)];

    let mut register =
        HardwareRegister::new_with_values("X", AccessMode::WriteOnly, &values).unwrap();

    register.clear();

    assert_eq!(register, HardwareRegister::new("X", AccessMode::WriteOnly));
}
