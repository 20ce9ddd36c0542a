use gen_epub_book::Error;

#[test]
fn more_normal_non_e() {
    let mut out = Vec::new();
    Error::Io {
            desc: "input file",
            op: "read",
            more: Some("stream ended"),
        }
        .print_error(&mut out);
    assert_eq!(out.iter().map(|&i| i as char).collect::<String>(),
               "Reading input file failed: stream ended.\n".to_string());
}

#[test]
fn more_normal_e() {
    let mut out = Vec::new();
    Error::Io {
            desc: "output file",
            op: "create",
            more: Some("stream ended"),
        }
        .print_error(&mut out);
    assert_eq!(out.iter().map(|&i| i as char).collect::<String>(),
               "Creating output file failed: stream ended.\n".to_string());
}

#[test]
fn more_single_non_e() {
    let mut out = Vec::new();
    Error::Io {
            desc: "input file",
            op: "C",
            more: Some("stream ended"),
        }
        .print_error(&mut out);
    assert_eq!(out.iter().map(|&i| i as char).collect::<String>(),
               "Cing input file failed: stream ended.\n".to_string());
}

#[test]
fn more_single_e() {
    let mut out = Vec::new();
    Error::Io {
            desc: "input file",
            op: "e",
            more: Some("stream ended"),
        }
        .print_error(&mut out);
    assert_eq!(out.iter().map(|&i| i as char).collect::<String>(),
               "ing input file failed: stream ended.\n".to_string());
}

#[test]
fn more_empty() {
    let mut out = Vec::new();
    Error::Io {
            desc: "input file",
            op: "",
            more: Some("stream ended"),
        }
        .print_error(&mut out);
    assert_eq!(out.iter().map(|&i| i as char).collect::<String>(),
               "ing input file failed: stream ended.\n".to_string());
}

#[test]
fn no_more_normal_non_e() {
    let mut out = Vec::new();
    Error::Io {
            desc: "input file",
            op: "read",
            more: None,
        }
        .print_error(&mut out);
    assert_eq!(out.iter().map(|&i| i as char).collect::<String>(), "Reading input file failed.\n".to_string());
}

#[test]
fn no_more_normal_e() {
    let mut out = Vec::new();
    Error::Io {
            desc: "output file",
            op: "create",
            more: None,
        }
        .print_error(&mut out);
    assert_eq!(out.iter().map(|&i| i as char).collect::<String>(), "Creating output file failed.\n".to_string());
}

#[test]
fn no_more_single_non_e() {
    let mut out = Vec::new();
    Error::Io {
            desc: "input file",
            op: "C",
            more: None,
        }
        .print_error(&mut out);
    assert_eq!(out.iter().map(|&i| i as char).collect::<String>(), "Cing input file failed.\n".to_string());
}

#[test]
fn no_more_single_e() {
    let mut out = Vec::new();
    Error::Io {
            desc: "input file",
            op: "e",
            more: None,
        }
        .print_error(&mut out);
    assert_eq!(out.iter().map(|&i| i as char).collect::<String>(), "ing input file failed.\n".to_string());
}

#[test]
fn no_more_empty() {
    let mut out = Vec::new();
    Error::Io {
            desc: "input file",
            op: "",
            more: None,
        }
        .print_error(&mut out);
    assert_eq!(out.iter().map(|&i| i as char).collect::<String>(), "ing input file failed.\n".to_string());
}

#[test]
fn mod_file_not_found() {
    let mut out = Vec::new();
    Error::FileNotFound {
            who: "Content",
            path: String::from("file/that/does/not.exist"),
        }
        .print_error(&mut out);
    assert_eq!(out.iter().map(|&i| i as char).collect::<String>(),
               "File file/that/does/not.exist for Content not found.\n".to_string());
}

#[test]
fn mod_wrong_file_state() {
    let mut out = Vec::new();
    Error::WrongFileState {
            what: "actually a file",
            path: String::from("file/that/does/not.exist"),
        }
        .print_error(&mut out);
    assert_eq!(out.iter().map(|&i| i as char).collect::<String>(),
               "File file/that/does/not.exist is not actually a file.\n".to_string());
}

#[test]
fn mod_wrong_element_amount() {
    let mut out = Vec::new();
    Error::WrongElementAmount {
            element: "Name",
            actual: 2,
            relation: "exactly",
            bound: 1,
        }
        .print_error(&mut out);
    assert_eq!(out.iter().map(|&i| i as char).collect::<String>(),
               "Wrong amount of Name elements: 2, must be exactly 1.\n".to_string());
}

#[test]
fn mod_required_element_missing() {
    let mut out = Vec::new();
    Error::RequiredElementMissing("Name").print_error(&mut out);
    assert_eq!(out.iter().map(|&i| i as char).collect::<String>(),
               "Required element Name not specified.\n".to_string());
}

#[test]
fn no_more() {
    let mut out = Vec::new();
    Error::Parse {
            tp: "URL",
            wher: "book element",
            more: None,
        }
        .print_error(&mut out);
    assert_eq!(out.iter().map(|&i| i as char).collect::<String>(), "Failed to parse URL for book element.\n");
}

#[test]
fn more() {
    let mut out = Vec::new();
    Error::Parse {
            tp: "datetime",
            wher: "book element",
            more: Some("not RFC3339"),
        }
        .print_error(&mut out);
    assert_eq!(out.iter().map(|&i| i as char).collect::<String>(),
               "Failed to parse datetime for book element: not RFC3339.\n");
}