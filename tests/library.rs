use gen_epub_book::ops::{content_title, find_file, find_title, guess_type, pick_directory, BookElement, EPubBook,
                         EPubContentType, IncludeDirectory, Timestamp};
use gen_epub_book::util::{book_filename, uppercase_first, write_string_content, xhtml_path_id, xhtml_url_id, WebAddress};
use gen_epub_book::{Error, Options};

fn date() -> Timestamp {
    Timestamp::parse_rfc3339("2017-02-08T15:30:18+01:00").unwrap()
}

fn base(extra: Vec<BookElement>) -> Vec<BookElement> {
    let mut v = vec![BookElement::Name("T".to_string()),
                     BookElement::Author("A".to_string()),
                     BookElement::Date(date()),
                     BookElement::Language("en-GB".to_string())];
    v.extend(extra);
    v
}

#[test]
fn slug_of_relative_path() {
    assert_eq!(xhtml_path_id("./a/../b/c.html"), "b-c");
    assert!(book_filename("./a/../b/c.html").ends_with(".html"));
    assert_eq!(book_filename("./a/../b/c.html"), "b-c.html");
    assert_eq!(xhtml_path_id("./abolish/the/../burgeoisie.html"), "abolish-burgeoisie");
    assert_eq!(book_filename("./abolish/the/../burgeoisie.html"), "abolish-burgeoisie.html");
    assert_eq!(xhtml_path_id("../up/./here.html"), "up-here");
}

#[test]
fn slug_edge_cases() {
    assert_eq!(xhtml_path_id(""), "");
    assert_eq!(xhtml_path_id("content\\ch01.html"), "content-ch01");
    assert_eq!(xhtml_path_id(".hidden"), ".hidden");
    assert_eq!(book_filename("noext"), "noext");
    assert_eq!(book_filename("a.b.c"), "a.b.c");
    assert_eq!(book_filename("v1.2/x.html"), "v1.2-x.html");
    assert_eq!(xhtml_path_id("dir/"), "dir-");
    assert_eq!(book_filename("images/cover.png"), "images-cover.png");
}

#[test]
fn uppercase_first_examples() {
    assert_eq!(uppercase_first("abolish"), "Abolish".to_string());
    assert_eq!(uppercase_first(""), "".to_string());
    assert_eq!(uppercase_first("ßa"), "SSa".to_string());
}

#[test]
fn url_identifier() {
    let u = WebAddress::parse("https://upload.wikimedia.org/2000px-Recycle_symbol_Taiwan.svg.png").unwrap();
    assert_eq!(u.last_segment, "2000px-Recycle_symbol_Taiwan.svg.png");
    assert_eq!(xhtml_url_id(&u), "2000px-Recycle_symbol_Taiwan");
    let plain = WebAddress::parse("http://example.com/dir/plain").unwrap();
    assert_eq!(xhtml_url_id(&plain), "plain");
    assert!(WebAddress::parse("not a url").is_none());
}

#[test]
fn string_content_page() {
    let mut buf = vec![];
    assert_eq!(write_string_content(&mut buf, "<i>String content</i>"), Ok(()));
    assert_eq!(String::from_utf8(buf).unwrap(),
               "<html xmlns=\"http://www.w3.org/1999/xhtml\">\n  <head></head>\n  <body>\n    <i>String content</i>\n  </body>\n</html>\n");
}

#[test]
fn packed_names_and_ids() {
    let unnamed = IncludeDirectory::Unnamed { dir: ("cur-dir".to_string(), ".".to_string()) };
    let named = IncludeDirectory::Named { name: "dot".to_string(), dir: ("named-cur-dir".to_string(), ".".to_string()) };
    assert_eq!(unnamed.directory_name(), "cur-dir");
    assert_eq!(named.directory_name(), "named-cur-dir");
    assert_eq!(unnamed.packed_name("content/ch01.html"), "content-ch01.html");
    assert_eq!(named.packed_name("content/ch01.html"), "dot/content-ch01.html");
    assert_eq!(unnamed.packed_id("content/ch01.html"), "content-ch01");
    assert_eq!(named.packed_id("content/ch01.html"), "dot--content-ch01");
}

#[test]
fn first_root_wins() {
    let r1 = IncludeDirectory::Unnamed { dir: ("".to_string(), "r1".to_string()) };
    let r2 = IncludeDirectory::Named { name: "two".to_string(), dir: ("r2".to_string(), "r2".to_string()) };
    let roots = [r1.duplicate(), r2.duplicate()];
    assert_eq!(pick_directory(&roots, &vec![true, true]), Some(&r1));
    assert_eq!(pick_directory(&roots, &vec![false, true]), Some(&r2));
    assert_eq!(pick_directory(&roots, &vec![false, false]), None);
}

#[test]
fn resolution_against_system_directories() {
    let root = IncludeDirectory::Unnamed { dir: ("".to_string(), "/".to_string()) };
    let etc = IncludeDirectory::Named { name: "conf".to_string(), dir: ("/etc".to_string(), "/etc".to_string()) };
    assert_eq!(root.resolve("etc/passwd"), Some("/etc/passwd".to_string()));
    assert_eq!(root.resolve("etc"), None);
    assert_eq!(root.resolve("no-such-file.html"), None);
    let order = [etc.duplicate(), root.duplicate()];
    assert_eq!(find_file("passwd", &order), Some(&etc));
    assert_eq!(find_file("etc/passwd", &order), Some(&root));
    assert_eq!(find_file("missing.png", &order), None);
}

#[test]
fn include_directory_specifiers() {
    assert_eq!(IncludeDirectory::split_specifier("name=some/path"), (Some("name".to_string()), "some/path".to_string()));
    assert_eq!(IncludeDirectory::split_specifier("some/path"), (None, "some/path".to_string()));
    assert_eq!(IncludeDirectory::from_canonical(None, "x".to_string(), None, false),
               Err(Error::Parse { tp: "directory", wher: "include directory", more: Some("not found") }));
    assert_eq!(IncludeDirectory::from_canonical(None, "x".to_string(), Some("/abs/x".to_string()), true),
               Err(Error::WrongFileState { what: "a directory", path: "x".to_string() }));
    assert_eq!(IncludeDirectory::from_canonical(Some("n".to_string()), "x".to_string(), Some("/abs/x".to_string()), false),
               Ok(IncludeDirectory::Named { name: "n".to_string(), dir: ("x".to_string(), "/abs/x".to_string()) }));
    assert!("/etc".parse::<IncludeDirectory>().is_ok());
    assert_eq!("/etc/passwd".parse::<IncludeDirectory>(),
               Err(Error::WrongFileState { what: "a directory", path: "/etc/passwd".to_string() }));
    assert_eq!("no/such/dir".parse::<IncludeDirectory>(),
               Err(Error::Parse { tp: "directory", wher: "include directory", more: Some("not found") }));
}

#[test]
fn title_markers() {
    assert_eq!(find_title("L1\nL <!-- ePub title: \"TTL\" -->2\nL3"), Some("TTL".to_string()));
    assert_eq!(find_title("<!-- ePub title: \"TOC_NAME -->"), None);
    assert_eq!(find_title("<!-- ePub title: \"\" -->"), None);
    assert_eq!(find_title("no marker here"), None);
    assert_eq!(find_title("<!-- ePub title: \"a\nb\" -->"), None);
    assert_eq!(find_title("x <!-- ePub title: \"One\" --> <!-- ePub title: \"Two\" -->"), Some("One".to_string()));
}

#[test]
fn titles_by_source() {
    let file = EPubContentType::File("ch1.html".to_string());
    let raw = EPubContentType::Raw("<!-- ePub title: \"R\" -->".to_string());
    assert_eq!(content_title(&file, "<!-- ePub title: \"F\" -->", false), Some("F".to_string()));
    assert_eq!(content_title(&raw, "", false), None);
    assert_eq!(content_title(&raw, "", true), Some("R".to_string()));
}

#[test]
fn media_types() {
    assert_eq!(guess_type("ch1.html"), "application/xhtml+xml");
    assert_eq!(guess_type("cover.png"), "image/png");
    assert_eq!(guess_type("unknown.zzzunknown"), "text/plain");
}

#[test]
fn missing_required_element_order() {
    assert_eq!(EPubBook::from_elements(vec![]).err(), Some(Error::RequiredElementMissing("Name")));
    assert_eq!(EPubBook::from_elements(vec![BookElement::Name("n".to_string()), BookElement::Date(date())]).err(),
               Some(Error::RequiredElementMissing("Author")));
    assert_eq!(EPubBook::from_elements(vec![BookElement::Name("n".to_string()), BookElement::Author("a".to_string()),
                                            BookElement::Language("l".to_string())]).err(),
               Some(Error::RequiredElementMissing("Date")));
}

#[test]
fn description_group_is_exclusive() {
    let r = EPubBook::from_elements(base(vec![BookElement::StringDescription("d".to_string()),
                                              BookElement::Description("d.html".to_string())]));
    assert_eq!(r.err(),
               Some(Error::WrongElementAmount { element: "Description, String-Description, and Network-Description",
                                                actual: 2, relation: "exactly", bound: 1 }));
}

#[test]
fn third_cover_reports_two() {
    let r = EPubBook::from_elements(base(vec![BookElement::Cover("a.png".to_string()),
                                              BookElement::Cover("b.png".to_string()),
                                              BookElement::Cover("c.png".to_string())]));
    assert_eq!(r.err(),
               Some(Error::WrongElementAmount { element: "Cover and Network-Cover", actual: 2, relation: "exactly", bound: 1 }));
}

#[test]
fn aggregated_entries() {
    let book = EPubBook::from_elements(base(vec![BookElement::StringContent("<b>s</b>".to_string()),
                                                 BookElement::ImageContent("img/x.png".to_string()),
                                                 BookElement::Include("style.css".to_string())]))
        .unwrap();
    assert_eq!(book.content,
               vec![("string-content-4".to_string(), "string-data-4.html".to_string(), EPubContentType::Raw("<b>s</b>".to_string())),
                    ("image-content-5".to_string(),
                     "image-data-5.html".to_string(),
                     EPubContentType::Raw("<center><img src=\"img-x.png\" alt=\"img-x.png\"></img></center>".to_string()))]);
    assert_eq!(book.non_content,
               vec![("img-x".to_string(), "img-x.png".to_string(), EPubContentType::File("img/x.png".to_string())),
                    ("style".to_string(), "style.css".to_string(), EPubContentType::File("style.css".to_string()))]);
    assert_eq!(book.uuid.len(), 36);
    assert_eq!(book.uuid.matches('-').count(), 4);
    assert_eq!(&book.uuid[8..9], "-");
}

#[test]
fn normalising_against_system_directories() {
    let mut book = EPubBook::from_elements(base(vec![BookElement::Content("etc/passwd".to_string()),
                                                     BookElement::Cover("etc/passwd".to_string())]))
        .unwrap();
    let roots = [IncludeDirectory::Named { name: "top".to_string(), dir: ("".to_string(), "/".to_string()) }];
    let mut log = vec![];
    assert_eq!(book.normalise_paths(&roots, true, &mut log), Ok(()));
    assert_eq!(book.content[0], ("top--etc-passwd".to_string(), "top/etc-passwd".to_string(), EPubContentType::File("/etc/passwd".to_string())));
    assert_eq!(book.non_content[0], ("top--etc-passwd".to_string(), "top/etc-passwd".to_string(), EPubContentType::File("/etc/passwd".to_string())));
    assert_eq!(book.cover.as_ref().unwrap().0, "cover-content-5");
    assert_eq!(String::from_utf8(log).unwrap(),
               "Normalised etc/passwd to etc/passwd for Content, Image or Include.\nNormalised etc/passwd to etc/passwd for Content, Image or Include.\n");

    let mut missing = EPubBook::from_elements(base(vec![BookElement::Content("nowhere.html".to_string())])).unwrap();
    let before = missing.clone();
    let mut quiet = vec![];
    assert_eq!(missing.normalise_paths(&roots, true, &mut quiet),
               Err(Error::FileNotFound { who: "Content, Image or Include", path: "nowhere.html".to_string() }));
    assert!(quiet.is_empty());
    assert_eq!(missing, before);

    let mut plain = EPubBook::from_elements(base(vec![BookElement::StringContent("s".to_string())])).unwrap();
    let unchanged = plain.clone();
    let mut nothing = vec![];
    assert_eq!(plain.normalise_paths(&[], true, &mut nothing), Ok(()));
    assert_eq!(plain, unchanged);
    assert!(nothing.is_empty());
}

#[test]
fn end_to_end_documents() {
    let book = EPubBook::from_elements(base(vec![BookElement::Content("ch1.html".to_string()),
                                                 BookElement::Cover("cover.png".to_string())]))
        .unwrap();
    let opf = String::from_utf8(book.content_table(&vec![])).unwrap();
    assert!(opf.contains("<dc:title>T</dc:title>"));
    assert!(opf.contains("<dc:date>2017-02-08T15:30:18+01:00</dc:date>"));
    assert!(opf.contains("<item href=\"cover-data-5.html\" id=\"cover-content-5\" media-type=\"application/xhtml+xml\" />"));
    assert!(opf.contains("<item href=\"ch1.html\" id=\"ch1\" media-type=\"application/xhtml+xml\" />"));
    assert!(opf.contains("<item href=\"cover.png\" id=\"cover\" media-type=\"image/png\" />"));
    assert!(opf.contains("<itemref idref=\"ch1\" />"));
    assert!(opf.contains("<spine toc=\"toc\">\n    <itemref idref=\"cover-content-5\" />\n    <itemref idref=\"ch1\" />\n  </spine>"));
    assert!(opf.contains("<meta name=\"cover\" content=\"cover-content-5\" />"));
    assert_eq!(opf.matches("<itemref").count(), 2);

    let titles = vec![content_title(&book.content[0].2, "<p><!-- ePub title: \"Ch1\" --></p>", false)];
    let toc = book.table_of_contents(&titles);
    assert_eq!(toc.matches("<navPoint").count(), 1);
    assert!(toc.contains("playOrder=\"1\""));
    assert!(toc.contains("<text>Ch1</text>"));
    assert!(toc.contains("<content src=\"ch1.html\"/>"));

    let payload: Vec<String> = book.payload_items().into_iter().map(|d| d.1).collect();
    assert_eq!(payload, vec!["cover-data-5.html".to_string(), "ch1.html".to_string(), "cover.png".to_string()]);
}

#[test]
fn manifest_and_payload_deduplication() {
    let book = EPubBook::from_elements(base(vec![BookElement::Content("ch1.html".to_string()),
                                                 BookElement::Content("ch1.html".to_string()),
                                                 BookElement::StringDescription("About".to_string())]))
        .unwrap();
    let opf = String::from_utf8(book.content_table(&vec![])).unwrap();
    assert_eq!(opf.matches("<item href=\"ch1.html\"").count(), 1);
    assert_eq!(opf.matches("<itemref idref=\"ch1\" />").count(), 1);
    assert!(opf.contains("    <dc:description>\nAbout\n    </dc:description>\n"));
    assert_eq!(book.payload_items().len(), 1);
}

#[test]
fn description_payload_is_inlined() {
    let book = EPubBook::from_elements(base(vec![BookElement::Description("d.html".to_string())])).unwrap();
    let opf = book.content_table(&b"<p>fetched</p>".to_vec());
    assert!(String::from_utf8(opf).unwrap().contains("    <dc:description>\n<p>fetched</p>    </dc:description>\n"));
}

#[test]
fn play_orders_count_titled_entries() {
    let book = EPubBook::from_elements(base(vec![BookElement::Content("a.html".to_string()),
                                                 BookElement::Content("b.html".to_string()),
                                                 BookElement::Content("c.html".to_string())]))
        .unwrap();
    let titles = vec![Some("A".to_string()), None, Some("C".to_string())];
    let ids = vec!["i0".to_string(), "i1".to_string(), "i2".to_string()];
    let toc = book.table_of_contents_with(&titles, &ids);
    assert!(toc.contains("<navPoint id=\"i0\" playOrder=\"1\">"));
    assert!(toc.contains("<navPoint id=\"i2\" playOrder=\"2\">"));
    assert!(!toc.contains("i1"));
    assert!(toc.starts_with("<?xml version='1.0' encoding='utf-8'?>\n<ncx xmlns=\"http://www.daisy.org/z3986/2005/ncx/\" version=\"2005-1\" xml:lang=\"en-GB\">"));
    assert!(toc.ends_with("  </navMap>\n</ncx>\n"));
}

#[test]
fn option_values() {
    assert_eq!(Options::separator_validator("".to_string()), Err("Separator empty".to_string()));
    assert_eq!(Options::separator_validator(":".to_string()), Ok(()));
    assert_eq!(Options::optional_fname_arg("-"), None);
    assert_eq!(Options::optional_fname_arg("book.epub"), Some("book.epub"));
    assert_eq!(Options::source_root(Some("dir/sub/book.epupp")),
               IncludeDirectory::Unnamed { dir: ("dir/sub/".to_string(), "dir/sub".to_string()) });
    assert_eq!(Options::source_root(Some("book.epupp")),
               IncludeDirectory::Unnamed { dir: ("".to_string(), ".".to_string()) });
    assert_eq!(Options::source_root(None), IncludeDirectory::Unnamed { dir: ("".to_string(), ".".to_string()) });
    assert_eq!(Options::source_file_validator("-".to_string()), Ok(()));
    assert_eq!(Options::source_file_validator("/etc/passwd".to_string()), Ok(()));
    assert_eq!(Options::source_file_validator("absent.epupp".to_string()),
               Err("Source file \"absent.epupp\" not found".to_string()));
    assert_eq!(Options::source_file_validator("/etc".to_string()),
               Err("Source file \"/etc\" not actualy a file".to_string()));
    assert!(Options::include_dir_validator("/etc".to_string()).is_ok());
    assert_eq!(Options::include_dir_validator("no/such/dir".to_string()),
               Err("Failed to parse directory for include directory: not found.\n".to_string()));
}

#[test]
fn error_messages_and_exit_values() {
    let e = Error::WrongElementAmount { element: "Cover", actual: 12, relation: "exactly", bound: 1 };
    assert_eq!(e.message(), "Wrong amount of Cover elements: 12, must be exactly 1.\n");
    assert_eq!(e.exit_value(), 5);
    assert_eq!(Error::Io { desc: "network content", op: "request", more: None }.message(),
               "Requesting network content failed.\n");
}

fn member(archive: &mut zip::ZipArchive<std::io::Cursor<Vec<u8>>>, name: &str) -> String {
    let mut text = String::new();
    std::io::Read::read_to_string(&mut archive.by_name(name).unwrap(), &mut text).unwrap();
    text
}

#[test]
fn end_to_end_archive() {
    let book = EPubBook::from_elements(base(vec![BookElement::Content("ch1.html".to_string()),
                                                 BookElement::Cover("cover.png".to_string())]))
        .unwrap();
    let items = book.payload_items();
    let fetched: Vec<Vec<u8>> = items.iter()
        .map(|d| match d.2 {
            EPubContentType::File(ref p) if p == "ch1.html" => b"<p><!-- ePub title: \"Ch1\" --></p>".to_vec(),
            EPubContentType::File(_) => vec![0x89, b'P', b'N', b'G'],
            _ => vec![],
        })
        .collect();
    let texts = vec!["<p><!-- ePub title: \"Ch1\" --></p>".to_string()];
    let bytes = book.write_zip(&texts, &vec![], &fetched).unwrap();
    let mut archive = zip::ZipArchive::new(std::io::Cursor::new(bytes)).unwrap();
    let names: Vec<String> = (0..archive.len()).map(|i| archive.by_index(i).unwrap().name().unwrap().to_string()).collect();
    assert_eq!(names,
               vec!["mimetype", "META-INF/container.xml", "content.opf", "toc.ncx", "cover-data-5.html", "ch1.html", "cover.png"]);
    assert_eq!(member(&mut archive, "mimetype"), "application/epub+zip");
    assert!(member(&mut archive, "META-INF/container.xml").contains("full-path=\"content.opf\""));
    let opf = member(&mut archive, "content.opf");
    assert!(opf.contains("<dc:title>T</dc:title>"));
    assert_eq!(opf.matches("<itemref").count(), 2);
    let toc = member(&mut archive, "toc.ncx");
    assert_eq!(toc.matches("<navPoint").count(), 1);
    assert!(toc.contains("playOrder=\"1\""));
    assert!(toc.contains("<text>Ch1</text>"));
    assert!(member(&mut archive, "cover-data-5.html").contains("<img src=\"cover.png\" alt=\"cover.png\"></img>"));
    assert_eq!(member(&mut archive, "ch1.html"), "<p><!-- ePub title: \"Ch1\" --></p>");
}
