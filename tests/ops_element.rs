use chrono::DateTime;
use gen_epub_book::ops::{BookElement, Timestamp};
use gen_epub_book::util::WebAddress;
use gen_epub_book::Error;

const PURSUER_URL: &str = "https://upload.wikimedia.org/wikipedia/commons/5/5b/Pursuer.png";
const TAIWAN_RECYCLING_SYMBOL_URL: &str = "https://upload.wikimedia.org/2000px-Recycle_symbol_Taiwan.svg.png";

#[test]
fn display_name() {
    assert_eq!(&BookElement::Name("ePub test".to_string()).to_text(), "Name: ePub test");
}

#[test]
fn display_content() {
    assert_eq!(&BookElement::Content(String::from("test/two/ch1.html")).to_text(),
               "Content: test/two/ch1.html");
}

#[test]
fn display_string_content() {
    assert_eq!(&BookElement::StringContent("<i>Italics</i>".to_string()).to_text(),
               "String-Content: <i>Italics</i>");
}

#[test]
fn display_image_content() {
    assert_eq!(&BookElement::ImageContent(String::from("images/ch1.png")).to_text(),
               "Image-Content: images/ch1.png");
}

#[test]
fn display_network_image_content() {
    assert_eq!(BookElement::NetworkImageContent(WebAddress::parse(PURSUER_URL).unwrap()).to_text(),
               format!("Network-Image-Content: {}", PURSUER_URL));
}

#[test]
fn display_cover() {
    assert_eq!(&BookElement::Cover(String::from("cover.jpg")).to_text(), "Cover: cover.jpg");
}

#[test]
fn display_network_cover() {
    assert_eq!(BookElement::NetworkImageContent(WebAddress::parse(TAIWAN_RECYCLING_SYMBOL_URL).unwrap()).to_text(),
               format!("Network-Image-Content: {}", TAIWAN_RECYCLING_SYMBOL_URL));
}

#[test]
fn display_author() {
    assert_eq!(&BookElement::Author("nabijaczleweli".to_string()).to_text(), "Author: nabijaczleweli");
}

#[test]
fn display_date() {
    assert_eq!(&BookElement::Date(Timestamp::parse_rfc3339("2017-02-08T15:30:18+01:00").unwrap()).to_text(),
               "Date: 2017-02-08T15:30:18+01:00");
}

#[test]
fn display_language() {
    assert_eq!(&BookElement::Language("en-GB".to_string()).to_text(), "Language: en-GB");
}

#[test]
fn name_name() {
    assert_eq!(BookElement::Name("ePub test".to_string()).name(), "Name");
}

#[test]
fn name_content() {
    assert_eq!(BookElement::Content(String::from("test/two/ch1.html")).name(), "Content");
}

#[test]
fn name_string_content() {
    assert_eq!(BookElement::StringContent("<i>Italics</i>".to_string()).name(), "String-Content");
}

#[test]
fn name_image_content() {
    assert_eq!(BookElement::ImageContent(String::from("images/ch1.png")).name(), "Image-Content");
}

#[test]
fn name_network_image_content() {
    assert_eq!(BookElement::NetworkImageContent(WebAddress::parse(PURSUER_URL).unwrap()).name(),
               "Network-Image-Content");
}

#[test]
fn name_cover() {
    assert_eq!(BookElement::Cover(String::from("cover.jpg")).name(), "Cover");
}

#[test]
fn name_network_cover() {
    assert_eq!(BookElement::NetworkImageContent(WebAddress::parse(TAIWAN_RECYCLING_SYMBOL_URL).unwrap()).name(),
               "Network-Image-Content");
}

#[test]
fn name_include() {
    assert_eq!(BookElement::Include(String::from("style.css")).name(), "Include");
}

#[test]
fn name_network_include() {
    assert_eq!(BookElement::NetworkInclude(WebAddress::parse(TAIWAN_RECYCLING_SYMBOL_URL).unwrap()).name(),
               "Network-Include");
}

#[test]
fn name_author() {
    assert_eq!(BookElement::Author("nabijaczleweli".to_string()).name(), "Author");
}

#[test]
fn name_date() {
    assert_eq!(BookElement::Date(Timestamp::parse_rfc3339("2017-02-08T15:30:18+01:00").unwrap()).name(),
               "Date");
}

#[test]
fn name_language() {
    assert_eq!(BookElement::Language("en-GB".to_string()).name(), "Language");
}

#[test]
fn elements_name() {
    assert_eq!(BookElement::parse("Name: ePub test", ":", false),
               Ok(Some(BookElement::Name("ePub test".to_string()))));
}

#[test]
fn elements_content() {
    assert_eq!(BookElement::parse("Content: test/two/ch1.html", ":", false),
               Ok(Some(BookElement::Content(String::from("test/two/ch1.html")))));
}

#[test]
fn elements_string_content() {
    assert_eq!(BookElement::parse("String-Content: <i>Italics</i>", ":", false),
               Ok(Some(BookElement::StringContent("<i>Italics</i>".to_string()))));
}

#[test]
fn elements_image_content() {
    assert_eq!(BookElement::parse("Image-Content: images/ch1.png", ":", false),
               Ok(Some(BookElement::ImageContent(String::from("images/ch1.png")))));
}

#[test]
fn elements_network_image_content() {
    assert_eq!(BookElement::parse(&format!("Network-Image-Content: {}", PURSUER_URL), ":", false),
               Ok(Some(BookElement::NetworkImageContent(WebAddress::parse(PURSUER_URL).unwrap()))));
}

#[test]
fn elements_cover() {
    assert_eq!(BookElement::parse("Cover: cover.jpg", ":", false),
               Ok(Some(BookElement::Cover(String::from("cover.jpg")))));
}

#[test]
fn elements_network_cover() {
    assert_eq!(BookElement::parse(&format!("Network-Cover: {}", TAIWAN_RECYCLING_SYMBOL_URL), ":", false),
               Ok(Some(BookElement::NetworkCover(WebAddress::parse(TAIWAN_RECYCLING_SYMBOL_URL).unwrap()))));
}

#[test]
fn elements_include() {
    assert_eq!(BookElement::parse("Include: style.css", ":", false),
               Ok(Some(BookElement::Include(String::from("style.css")))));
}

#[test]
fn elements_network_include() {
    assert_eq!(BookElement::parse(&format!("Network-Include: {}", TAIWAN_RECYCLING_SYMBOL_URL), ":", false),
               Ok(Some(BookElement::NetworkInclude(WebAddress::parse(TAIWAN_RECYCLING_SYMBOL_URL).unwrap()))));
}

#[test]
fn elements_author() {
    assert_eq!(BookElement::parse("Author: nabijaczleweli", ":", false),
               Ok(Some(BookElement::Author("nabijaczleweli".to_string()))));
}

#[test]
fn date_rigid() {
    assert_eq!(BookElement::parse("Date: 2017-02-08T15:30:18+01:00", ":", false),
               Ok(Some(BookElement::Date(Timestamp::parse_rfc3339("2017-02-08T15:30:18+01:00").unwrap()))));
}

#[test]
fn date_free() {
    assert_eq!(BookElement::parse("Date: 2017-02-08T15:30:18+01:00", ":", true),
               Ok(Some(BookElement::Date(Timestamp::parse_rfc3339("2017-02-08T15:30:18+01:00").unwrap()))));
    assert_eq!(BookElement::parse("Date: Wed, 08 Feb 2017 15:30:18 +0100", ":", true),
               Ok(Some(BookElement::Date(Timestamp { rfc3339: DateTime::parse_from_rfc2822("Wed, 08 Feb 2017 15:30:18 +0100").unwrap().to_rfc3339() }))));
    assert_eq!(BookElement::parse("Date: 1486564218+0100", ":", true),
               Ok(Some(BookElement::Date(Timestamp { rfc3339: DateTime::parse_from_str("1486564218+0100", "%s%:z").unwrap().to_rfc3339() }))));
}

#[test]
fn elements_language() {
    assert_eq!(BookElement::parse("Language: en-GB", ":", false),
               Ok(Some(BookElement::Language("en-GB".to_string()))));
}

#[test]
fn url() {
    assert_eq!(BookElement::parse("Network-Cover: http/i.imgur.com/ViQ2WED.jpg", ":", false),
               Err(Error::Parse {
                   tp: "URL",
                   wher: "book element",
                   more: None,
               }));
}

#[test]
fn datetime_rigid() {
    assert_eq!(BookElement::parse("Date: Thu, 29 Dec 2016 15:37:19 +0100", ":", false),
               Err(Error::Parse {
                   tp: "datetime",
                   wher: "book element",
                   more: Some("not RFC3339"),
               }));
}

#[test]
fn datetime_free() {
    assert_eq!(BookElement::parse("Date: 1486564218", ":", true),
               Err(Error::Parse {
                   tp: "datetime",
                   wher: "book element",
                   more: Some("not RFC3339, RFC2822, nor Unix timestamp w/timezone"),
               }));
}

#[test]
fn unrecognised() {
    assert_eq!(BookElement::parse("Network-Content: https://nabijaczleweli.xyz/capitalism/extensive_list_of_rust_puns/index.html",
                                  ":",
                                  false),
               Ok(None));
    assert_eq!(BookElement::parse("For example: exhuberant capitalism combined with an aberration of the self", ":", true),
               Ok(None));
}

#[test]
fn not_description() {
    assert_eq!(BookElement::parse("# Simple thing, should work", ":", false), Ok(None));
    assert_eq!(BookElement::parse("Workers all over the world, unite!", "->", true), Ok(None));
}

#[test]
fn trimming() {
    let result = Ok(Some(BookElement::Name("nabijaczleweli".to_string())));
    assert_eq!(BookElement::parse("Name:nabijaczleweli", ":", false), result);
    assert_eq!(BookElement::parse("Name-> nabijaczleweli", "->", true), result);
    assert_eq!(BookElement::parse("Name> nabijaczleweli ", ">", false), result);
    assert_eq!(BookElement::parse("Name< nabijaczleweli\n", "<", true), result);
    assert_eq!(BookElement::parse("Name = nabijaczleweli", "=", false), result);
    assert_eq!(BookElement::parse("  Name INCREDIBLE COMMUNSIM nabijaczleweli \n", "INCREDIBLE COMMUNSIM", true),
               result);
}

#[test]
fn roundtrip() {
    assert_eq!(&BookElement::parse("Name: nabijaczleweli", ":", false).unwrap().unwrap().to_text(),
               "Name: nabijaczleweli");
    assert_eq!(&BookElement::parse("Name = nabijaczleweli", "=", true).unwrap().unwrap().to_text(),
               "Name: nabijaczleweli");
}