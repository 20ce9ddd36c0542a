use gen_epub_book::ops::IncludeDirectory;

#[test]
fn mod_unnamed() {
    assert_eq!(IncludeDirectory::Unnamed { dir: ("asdf/fdsa\\zxcv".to_string(), String::from("")) }.to_text(),
               "asdf/fdsa\\zxcv");
}

#[test]
fn mod_named() {
    assert_eq!(IncludeDirectory::Named {
                       name: "well".to_string(),
                       dir: ("asdf/fdsa\\zxcv".to_string(), String::from("")),
                   }
                   .to_text(),
               "well=asdf/fdsa\\zxcv");
}
