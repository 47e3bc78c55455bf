use myfind::preprocess_args;

fn strings(items: &[&str]) -> Vec<String> {
    items.iter().map(|s| s.to_string()).collect()
}

#[test]
fn lib_preprocess() {
    let start = [
        "./filename",
        "-name",
        "thing*",
        "-exec",
        "cmd",
        "-type",
        ";",
        "-type",
        "b",
    ];
    assert_eq!(
        preprocess_args(start.iter().map(|s| s.to_string()).collect()).unwrap(),
        vec![
            "./filename",
            "--name",
            "thing*",
            "--exec",
            "cmd -type",
            "--type",
            "b"
        ]
        .iter()
        .map(|s| s.to_string())
        .collect::<Vec<_>>()
    );
}

#[test]
fn main_preprocess() {
    let start = [
        "./filename",
        "-name",
        "thing*",
        "-exec",
        "cmd",
        "-type",
        ";",
        "-type",
        "b",
    ];
    assert_eq!(
        preprocess_args(start.iter().map(|s| s.to_string()).collect()).unwrap(),
        vec![
            "./filename",
            "--name",
            "thing*",
            "--exec",
            "cmd -type",
            "--type",
            "b"
        ]
        .iter()
        .map(|s| s.to_string())
        .collect::<Vec<_>>()
    );
}

#[test]
fn unterminated_exec_is_rejected() {
    let r = preprocess_args(strings(&[".", "-exec", "echo", "{}"]));
    assert_eq!(r, Err("missing argument to `-exec'"));
}

#[test]
fn bare_exec_without_terminator_is_rejected() {
    assert!(preprocess_args(strings(&["-exec"])).is_err());
}

#[test]
fn empty_arguments_stay_empty() {
    assert_eq!(preprocess_args(Vec::new()), Ok(Vec::<String>::new()));
}

#[test]
fn every_legacy_flag_is_lengthened() {
    let r = preprocess_args(strings(&["-print", "-name", "-type", "-mtime", "--name", "x"]));
    assert_eq!(
        r.unwrap(),
        strings(&["--print", "--name", "--type", "--mtime", "--name", "x"])
    );
}

#[test]
fn empty_exec_command_joins_to_empty_text() {
    let r = preprocess_args(strings(&["-exec", ";", "a"]));
    assert_eq!(r.unwrap(), strings(&["--exec", "", "a"]));
}

#[test]
fn exec_tokens_are_not_rewritten() {
    let r = preprocess_args(strings(&["-exec", "-name", "{}", "-exec", ";", "-mtime", "3"]));
    assert_eq!(r.unwrap(), strings(&["--exec", "-name {} -exec", "--mtime", "3"]));
}

#[test]
fn double_dash_exec_collects_up_to_terminator() {
    let r = preprocess_args(strings(&["find", "--exec", "echo", "{}", ";"]));
    assert_eq!(r.unwrap(), strings(&["find", "--exec", "echo {}"]));
    let r = preprocess_args(strings(&["--exec", "a", ";", "-print"]));
    assert_eq!(r.unwrap(), strings(&["--exec", "a", "--print"]));
}

#[test]
fn unterminated_double_dash_exec_is_rejected() {
    let r = preprocess_args(strings(&["--exec", "echo"]));
    assert_eq!(r, Err("missing argument to `-exec'"));
}
