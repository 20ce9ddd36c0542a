use gen_epub_book::ops::{BookElement, EPubBook, EPubContentType, Timestamp};
use gen_epub_book::util::WebAddress;
use gen_epub_book::Error;

#[test]
fn no_cover() {
    let book = EPubBook::from_elements(vec![BookElement::Name("Simple ePub demonstration".to_string()),
                                            BookElement::Author("nabijaczleweli".to_string()),
                                            BookElement::Date(Timestamp::parse_rfc3339("2017-02-08T15:30:18+01:00").unwrap()),
                                            BookElement::Language("en-GB".to_string())])
        .unwrap();

    assert_eq!(book.name, "Simple ePub demonstration".to_string());
    assert_eq!(book.author, "nabijaczleweli".to_string());
    assert_eq!(book.date, Timestamp::parse_rfc3339("2017-02-08T15:30:18+01:00").unwrap());
    assert_eq!(book.language, "en-GB".to_string());
    assert_eq!(book.cover, None);
}

#[test]
fn file_cover() {
    let book = EPubBook::from_elements(vec![BookElement::Name("Simple ePub demonstration".to_string()),
                                            BookElement::Author("nabijaczleweli".to_string()),
                                            BookElement::Cover(String::from("examples/cover.png")),
                                            BookElement::Date(Timestamp::parse_rfc3339("2017-02-08T15:30:18+01:00").unwrap()),
                                            BookElement::Language("en-GB".to_string())])
        .unwrap();

    assert_eq!(book.name, "Simple ePub demonstration".to_string());
    assert_eq!(book.author, "nabijaczleweli".to_string());
    assert_eq!(book.date, Timestamp::parse_rfc3339("2017-02-08T15:30:18+01:00").unwrap());
    assert_eq!(book.language, "en-GB".to_string());
    assert_eq!(book.cover,
               Some(("cover-content-2".to_string(),
                     String::from("cover-data-2.html"),
                     EPubContentType::Raw(r#"<center><img src="examples-cover.png" alt="examples-cover.png"></img></center>"#.to_string()))));
}

#[test]
fn correct_network_cover() {
    let book = EPubBook::from_elements(vec![BookElement::Name("Simple ePub demonstration".to_string()),
                                            BookElement::Author("nabijaczleweli".to_string()),
                                            BookElement::NetworkCover(WebAddress::parse("http://i.imgur.com/ViQ2WED.jpg").unwrap()),
                                            BookElement::Date(Timestamp::parse_rfc3339("2017-02-08T15:30:18+01:00").unwrap()),
                                            BookElement::Language("en-GB".to_string())])
        .unwrap();

    assert_eq!(book.name, "Simple ePub demonstration".to_string());
    assert_eq!(book.author, "nabijaczleweli".to_string());
    assert_eq!(book.date, Timestamp::parse_rfc3339("2017-02-08T15:30:18+01:00").unwrap());
    assert_eq!(book.language, "en-GB".to_string());
    assert_eq!(book.cover,
               Some(("network-cover-content-2".to_string(),
                     String::from("network-cover-data-2.html"),
                     EPubContentType::Raw(r#"<center><img src="ViQ2WED.jpg" alt="ViQ2WED.jpg"></img></center>"#.to_string()))));
}

#[test]
fn two_file() {
    assert_eq!(EPubBook::from_elements(vec![BookElement::Name("Simple ePub demonstration".to_string()),
                                            BookElement::Author("nabijaczleweli".to_string()),
                                            BookElement::Cover(String::from("examples/cover.png")),
                                            BookElement::Cover(String::from("examples/cover.png")),
                                            BookElement::Date(Timestamp::parse_rfc3339("2017-02-08T15:30:18+01:00").unwrap()),
                                            BookElement::Language("en-GB".to_string())]),
               Err(Error::WrongElementAmount {
                   element: "Cover and Network-Cover",
                   actual: 2,
                   relation: "exactly",
                   bound: 1,
               }));
}

#[test]
fn two_network() {
    assert_eq!(EPubBook::from_elements(vec![BookElement::Name("Simple ePub demonstration".to_string()),
                                            BookElement::Author("nabijaczleweli".to_string()),
                                            BookElement::NetworkCover(WebAddress::parse("http://i.imgur.com/ViQ2WED.jpg").unwrap()),
                                            BookElement::NetworkCover(WebAddress::parse("http://i.imgur.com/ViQ2WED.jpg").unwrap()),
                                            BookElement::Date(Timestamp::parse_rfc3339("2017-02-08T15:30:18+01:00").unwrap()),
                                            BookElement::Language("en-GB".to_string())]),
               Err(Error::WrongElementAmount {
                   element: "Cover and Network-Cover",
                   actual: 2,
                   relation: "exactly",
                   bound: 1,
               }));
}

#[test]
fn mixed_file_first() {
    assert_eq!(EPubBook::from_elements(vec![BookElement::Name("Simple ePub demonstration".to_string()),
                                            BookElement::Author("nabijaczleweli".to_string()),
                                            BookElement::Cover(String::from("examples/cover.png")),
                                            BookElement::NetworkCover(WebAddress::parse("http://i.imgur.com/ViQ2WED.jpg").unwrap()),
                                            BookElement::Date(Timestamp::parse_rfc3339("2017-02-08T15:30:18+01:00").unwrap()),
                                            BookElement::Language("en-GB".to_string())]),
               Err(Error::WrongElementAmount {
                   element: "Cover and Network-Cover",
                   actual: 2,
                   relation: "exactly",
                   bound: 1,
               }));
}

#[test]
fn mixed_network_first() {
    assert_eq!(EPubBook::from_elements(vec![BookElement::Name("Simple ePub demonstration".to_string()),
                                            BookElement::Author("nabijaczleweli".to_string()),
                                            BookElement::NetworkCover(WebAddress::parse("http://i.imgur.com/ViQ2WED.jpg").unwrap()),
                                            BookElement::Cover(String::from("examples/cover.png")),
                                            BookElement::Date(Timestamp::parse_rfc3339("2017-02-08T15:30:18+01:00").unwrap()),
                                            BookElement::Language("en-GB".to_string())]),
               Err(Error::WrongElementAmount {
                   element: "Cover and Network-Cover",
                   actual: 2,
                   relation: "exactly",
                   bound: 1,
               }));
}

#[test]
fn duplicate_name() {
    assert_eq!(EPubBook::from_elements(vec![BookElement::Name("Simple ePub demonstration".to_string()),
                                            BookElement::Name("Simple ePub demonstration".to_string()),
                                            BookElement::Author("nabijaczleweli".to_string()),
                                            BookElement::Date(Timestamp::parse_rfc3339("2017-02-08T15:30:18+01:00").unwrap()),
                                            BookElement::Language("en-GB".to_string())]),
               Err(Error::WrongElementAmount {
                   element: "Name",
                   actual: 2,
                   relation: "exactly",
                   bound: 1,
               }));
}

#[test]
fn duplicate_author() {
    assert_eq!(EPubBook::from_elements(vec![BookElement::Name("Simple ePub demonstration".to_string()),
                                            BookElement::Author("nabijaczleweli".to_string()),
                                            BookElement::Author("nabijaczleweli".to_string()),
                                            BookElement::Date(Timestamp::parse_rfc3339("2017-02-08T15:30:18+01:00").unwrap()),
                                            BookElement::Language("en-GB".to_string())]),
               Err(Error::WrongElementAmount {
                   element: "Author",
                   actual: 2,
                   relation: "exactly",
                   bound: 1,
               }));
}

#[test]
fn duplicate_date() {
    assert_eq!(EPubBook::from_elements(vec![BookElement::Name("Simple ePub demonstration".to_string()),
                                            BookElement::Author("nabijaczleweli".to_string()),
                                            BookElement::Date(Timestamp::parse_rfc3339("2017-02-08T15:30:18+01:00").unwrap()),
                                            BookElement::Date(Timestamp::parse_rfc3339("2017-02-08T15:30:18+01:00").unwrap()),
                                            BookElement::Language("en-GB".to_string())]),
               Err(Error::WrongElementAmount {
                   element: "Date",
                   actual: 2,
                   relation: "exactly",
                   bound: 1,
               }));
}

#[test]
fn duplicate_language() {
    assert_eq!(EPubBook::from_elements(vec![BookElement::Name("Simple ePub demonstration".to_string()),
                                            BookElement::Author("nabijaczleweli".to_string()),
                                            BookElement::Date(Timestamp::parse_rfc3339("2017-02-08T15:30:18+01:00").unwrap()),
                                            BookElement::Language("en-GB".to_string()),
                                            BookElement::Language("en-GB".to_string())]),
               Err(Error::WrongElementAmount {
                   element: "Language",
                   actual: 2,
                   relation: "exactly",
                   bound: 1,
               }));
}

#[test]
fn duplicate_ordering() {
    assert_eq!(EPubBook::from_elements(vec![BookElement::Author("nabijaczleweli".to_string()),
                                            BookElement::Author("nabijaczleweli".to_string()),
                                            BookElement::Language("en-GB".to_string()),
                                            BookElement::Language("en-GB".to_string())]),
               Err(Error::WrongElementAmount {
                   element: "Author",
                   actual: 2,
                   relation: "exactly",
                   bound: 1,
               }));
}

#[test]
fn missing_name() {
    assert_eq!(EPubBook::from_elements(vec![BookElement::Author("nabijaczleweli".to_string()),
                                            BookElement::Date(Timestamp::parse_rfc3339("2017-02-08T15:30:18+01:00").unwrap()),
                                            BookElement::Language("en-GB".to_string())]),
               Err(Error::RequiredElementMissing("Name")));
}

#[test]
fn missing_author() {
    assert_eq!(EPubBook::from_elements(vec![BookElement::Name("Simple ePub demonstration".to_string()),
                                            BookElement::Date(Timestamp::parse_rfc3339("2017-02-08T15:30:18+01:00").unwrap()),
                                            BookElement::Language("en-GB".to_string())]),
               Err(Error::RequiredElementMissing("Author")));
}

#[test]
fn missing_date() {
    assert_eq!(EPubBook::from_elements(vec![BookElement::Name("Simple ePub demonstration".to_string()),
                                            BookElement::Author("nabijaczleweli".to_string()),
                                            BookElement::Language("en-GB".to_string())]),
               Err(Error::RequiredElementMissing("Date")));
}

#[test]
fn missing_language() {
    assert_eq!(EPubBook::from_elements(vec![BookElement::Name("Simple ePub demonstration".to_string()),
                                            BookElement::Author("nabijaczleweli".to_string()),
                                            BookElement::Date(Timestamp::parse_rfc3339("2017-02-08T15:30:18+01:00").unwrap())]),
               Err(Error::RequiredElementMissing("Language")));
}

#[test]
fn missing_ordering() {
    assert_eq!(EPubBook::from_elements(vec![]), Err(Error::RequiredElementMissing("Name")));
    assert_eq!(EPubBook::from_elements(vec![BookElement::Name("Simple ePub demonstration".to_string())]),
               Err(Error::RequiredElementMissing("Author")));
    assert_eq!(EPubBook::from_elements(vec![BookElement::Name("Simple ePub demonstration".to_string()), BookElement::Author("nabijaczleweli".to_string())]),
               Err(Error::RequiredElementMissing("Date")));
    assert_eq!(EPubBook::from_elements(vec![BookElement::Name("Simple ePub demonstration".to_string()),
                                            BookElement::Author("nabijaczleweli".to_string()),
                                            BookElement::Date(Timestamp::parse_rfc3339("2017-02-08T15:30:18+01:00").unwrap())]),
               Err(Error::RequiredElementMissing("Language")));
}
