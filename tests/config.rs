use minigrep::{create_data, Config, Size};

fn args(items: &[&str]) -> Vec<String> {
    items.iter().map(|s| s.to_string()).collect()
}

#[test]
fn build_takes_query_and_path() {
    let c = Config::build(&args(&["minigrep", "needle", "poem.txt"]), false).ok().unwrap();
    assert_eq!("needle", c.query);
    assert_eq!("poem.txt", c.file_path);
    assert!(!c.ignore_case);
}

#[test]
fn build_ignores_case_when_flag_is_present() {
    let c = Config::build(&args(&["minigrep", "needle", "poem.txt"]), true).ok().unwrap();
    assert!(c.ignore_case);
}

#[test]
fn build_refuses_one_payload_argument() {
    let e = Config::build(&args(&["minigrep", "needle"]), false).err().unwrap();
    assert_eq!(
        "file path argument not found\nUsage: minigrep <query> <file_path>\nSet environment variable IGNORE_CASE to do case insensitive searching",
        e.message()
    );
}

#[test]
fn build_refuses_no_payload_argument() {
    let e = Config::build(&args(&["grep"]), false).err().unwrap();
    assert!(e.message.starts_with("query argument not found\nUsage: grep <query> <file_path>"));
}

#[test]
fn build_refuses_too_many_arguments() {
    let e = Config::build(&args(&["grep", "a", "b", "c"]), false).err().unwrap();
    assert!(e.message.starts_with("too many arguments\nUsage: grep <query> <file_path>"));
}

#[test]
fn build_refuses_empty_argument_list() {
    let e = Config::build(&Vec::new(), false).err().unwrap();
    assert_eq!("unable to find name of program", e.message);
}

#[test]
fn created_data_is_blue_and_large() {
    let d = create_data();
    assert_eq!("blue", d.color);
    assert_eq!(Size::Large.number(), d.size);
    assert_eq!(2, d.size);
    assert_eq!(vec!["Hello".to_string(), "World".to_string()], d.repeated_data);
}
