//! The shape of a test this library generates, exercised against the
//! library's own codec: decode the embedded payloads, re-invoke, and fail
//! hard if the operation still fails.
use exceptional::Executable;
use exceptional::SomeImportantAction;

#[test]
pub fn test_1539761233543() {
    let obj_json = r#"{
  "var_1": 0,
  "var_2": 0
}"#;
    let mut obj: SomeImportantAction =
        SomeImportantAction::decode(obj_json).expect("Could not deserialize json");

    let arg_json = r#"[
  2,
  0
]"#;
    let args = SomeImportantAction::decode_arguments(arg_json).expect("Could not deserialize json");

    if let Err(e) = obj.execute(&args) {
        println!("Could not execute {}", obj.description());
        println!("{:?}", e);
        panic!();
    }
}
