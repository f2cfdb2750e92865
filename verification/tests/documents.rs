use locale_audit::catalog::{load_locale_catalog, locale_catalog_from};
use locale_audit::document::{
    find_unnamed, load_reference_keys, read_catalog_entries, reference_keys_from, strip_bom,
    CatalogParseError, RawEntry, BYTE_ORDER_MARK,
};

const DOCUMENT: &str = r#"<?xml version="1.0" encoding="utf-8"?>
<root>
  <resheader name="version"><value>2.0</value></resheader>
  <data name="Title" xml:space="preserve">
    <value>Title</value>
  </data>
  <data name="Save">
    <value>Save</value>
    <comment>Check the wording</comment>
  </data>
  <other name="Ignored"/>
  <data name="Close"><value>Close</value><comment>done</comment></data>
</root>
"#;

fn entry(name: Option<&str>, comment: Option<&str>) -> RawEntry {
    RawEntry { name: name.map(|n| n.to_string()), comment: comment.map(|c| c.to_string()) }
}

fn owned(keys: &[&str]) -> Vec<String> {
    keys.iter().map(|key| key.to_string()).collect()
}

#[test]
fn byte_order_mark_is_taken_off() {
    assert_eq!(BYTE_ORDER_MARK, '\u{feff}');
    assert_eq!(strip_bom("\u{feff}<root/>"), "<root/>");
    assert_eq!(strip_bom("\u{feff}"), "");
}

#[test]
fn text_without_mark_stays_as_it_is() {
    assert_eq!(strip_bom("<root/>"), "<root/>");
    assert_eq!(strip_bom(""), "");
    assert_eq!(strip_bom("<\u{feff}"), "<\u{feff}");
}

#[test]
fn only_one_mark_is_taken_off() {
    assert_eq!(strip_bom("\u{feff}\u{feff}x"), "\u{feff}x");
}

#[test]
fn entries_are_read_in_document_order() {
    let entries = read_catalog_entries(DOCUMENT).ok().unwrap();
    assert_eq!(entries.len(), 3);
    assert_eq!(entries[0].name.as_deref(), Some("Title"));
    assert_eq!(entries[0].comment, None);
    assert_eq!(entries[1].name.as_deref(), Some("Save"));
    assert_eq!(entries[1].comment.as_deref(), Some("Check the wording"));
    assert_eq!(entries[2].name.as_deref(), Some("Close"));
    assert_eq!(entries[2].comment.as_deref(), Some("done"));
}

#[test]
fn reference_keys_are_the_names_in_document_order() {
    let keys = load_reference_keys(DOCUMENT).ok().unwrap();
    assert_eq!(keys, owned(&["Title", "Save", "Close"]));
}

#[test]
fn reference_keys_keep_repeats() {
    let document = r#"<root><data name="A"/><data name="B"/><data name="A"/></root>"#;
    assert_eq!(load_reference_keys(document).ok().unwrap(), owned(&["A", "B", "A"]));
}

#[test]
fn document_without_entries_has_no_keys() {
    assert!(load_reference_keys("<root></root>").ok().unwrap().is_empty());
    assert_eq!(load_locale_catalog("<root/>").ok().unwrap().len(), 0);
}

#[test]
fn document_with_mark_parses_as_the_one_without() {
    let marked = format!("\u{feff}{}", DOCUMENT);
    assert_eq!(
        load_reference_keys(&marked).ok().unwrap(),
        load_reference_keys(DOCUMENT).ok().unwrap()
    );
    let with_mark = load_locale_catalog(&marked).ok().unwrap();
    let without = load_locale_catalog(DOCUMENT).ok().unwrap();
    assert_eq!(with_mark.len(), without.len());
    assert_eq!(with_mark.keys(), without.keys());
    assert_eq!(with_mark.comments(), without.comments());
    assert_eq!(with_mark.keys(), &owned(&["Title", "Save", "Close"]));
}

#[test]
fn malformed_document_is_an_error() {
    for document in ["", "no markup", "<root><data name=\"A\"></root>", "<root>"] {
        match load_reference_keys(document) {
            Err(CatalogParseError::Malformed { detail }) => assert!(!detail.is_empty()),
            _ => panic!("expected a malformed document: {:?}", document),
        }
        assert!(matches!(
            load_locale_catalog(document),
            Err(CatalogParseError::Malformed { .. })
        ));
        assert!(matches!(
            read_catalog_entries(document),
            Err(CatalogParseError::Malformed { .. })
        ));
    }
}

#[test]
fn entry_without_name_is_an_error() {
    let document = r#"<root><data name="A"/><data><value>x</value></data><data/></root>"#;
    assert!(matches!(
        load_reference_keys(document),
        Err(CatalogParseError::MissingName { entry: 1 })
    ));
    assert!(matches!(
        load_locale_catalog(document),
        Err(CatalogParseError::MissingName { entry: 1 })
    ));
}

#[test]
fn first_unnamed_entry_is_found() {
    let entries = vec![entry(Some("A"), None), entry(None, Some("x")), entry(None, None)];
    assert_eq!(find_unnamed(&entries), Some(1));
    assert_eq!(find_unnamed(&vec![entry(Some("A"), None)]), None);
    assert_eq!(find_unnamed(&Vec::new()), None);
    assert_eq!(find_unnamed(&vec![entry(None, None)]), Some(0));
}

#[test]
fn reference_keys_from_entries() {
    let entries = vec![entry(Some("A"), None), entry(Some("B"), Some("Check")), entry(Some("A"), None)];
    assert_eq!(reference_keys_from(&entries).ok().unwrap(), owned(&["A", "B", "A"]));
    let broken = vec![entry(None, None), entry(Some("B"), None)];
    assert!(matches!(
        reference_keys_from(&broken),
        Err(CatalogParseError::MissingName { entry: 0 })
    ));
    assert!(reference_keys_from(&Vec::new()).ok().unwrap().is_empty());
}

#[test]
fn locale_catalog_from_entries_lets_the_last_comment_win() {
    let entries = vec![
        entry(Some("A"), Some("Check me")),
        entry(Some("B"), None),
        entry(Some("A"), Some("done")),
    ];
    let catalog = locale_catalog_from(&entries).ok().unwrap();
    assert_eq!(catalog.len(), 2);
    assert_eq!(catalog.keys(), &owned(&["A", "B"]));
    assert_eq!(catalog.comments(), &vec![Some("done".to_string()), None]);
    assert_eq!(catalog.pending_count(), 0);
}

#[test]
fn locale_catalog_is_read_from_a_document() {
    let catalog = load_locale_catalog(DOCUMENT).ok().unwrap();
    assert_eq!(catalog.len(), 3);
    assert!(catalog.contains("Title"));
    assert!(catalog.contains("Save"));
    assert!(catalog.contains("Close"));
    assert!(!catalog.contains("Ignored"));
    assert!(!catalog.contains("version"));
    assert_eq!(catalog.pending_count(), 1);
}

#[test]
fn comment_text_is_what_precedes_the_first_child() {
    let document = r#"<root><data name="A"><comment>Check<b/>tail</comment></data></root>"#;
    let entries = read_catalog_entries(document).ok().unwrap();
    assert_eq!(entries[0].comment.as_deref(), Some("Check"));
}

#[test]
fn first_comment_of_an_entry_counts() {
    let document =
        r#"<root><data name="A"><comment>one</comment><comment>Check two</comment></data></root>"#;
    let entries = read_catalog_entries(document).ok().unwrap();
    assert_eq!(entries[0].comment.as_deref(), Some("one"));
}

#[test]
fn nested_entries_are_not_read() {
    let document = r#"<root><group><data name="Deep"/></group><data name="Top"/></root>"#;
    assert_eq!(load_reference_keys(document).ok().unwrap(), owned(&["Top"]));
}

const RESOURCE_FILE: &str = r#"<?xml version="1.0" encoding="utf-8"?>
<root>
  <!--
    Microsoft ResX Schema

    Version 2.0
  -->
  <xsd:schema id="root" xmlns="" xmlns:xsd="http://www.w3.org/2001/XMLSchema" xmlns:msdata="urn:schemas-microsoft-com:xml-msdata">
    <xsd:import namespace="http://www.w3.org/XML/1998/namespace" />
    <xsd:element name="root" msdata:IsDataSet="true">
      <xsd:complexType>
        <xsd:choice maxOccurs="unbounded">
          <xsd:element name="data">
            <xsd:complexType>
              <xsd:sequence>
                <xsd:element name="value" type="xsd:string" minOccurs="0" msdata:Ordinal="1" />
                <xsd:element name="comment" type="xsd:string" minOccurs="0" msdata:Ordinal="2" />
              </xsd:sequence>
              <xsd:attribute name="name" type="xsd:string" use="required" msdata:Ordinal="1" />
            </xsd:complexType>
          </xsd:element>
        </xsd:choice>
      </xsd:complexType>
    </xsd:element>
  </xsd:schema>
  <resheader name="resmimetype">
    <value>text/microsoft-resx</value>
  </resheader>
  <data name="AppName" xml:space="preserve">
    <value>Money &amp; more</value>
  </data>
  <data name="Tom&amp;Jerry" xml:space="preserve">
    <value>x</value>
    <comment>Check &lt;this&gt;</comment>
  </data>
  <data name="Last" xml:space="preserve">
    <value><![CDATA[<b>bold</b>]]></value>
    <comment>  Check</comment>
  </data>
</root>"#;

#[test]
fn resource_file_with_schema_and_comments_is_read() {
    assert_eq!(
        load_reference_keys(RESOURCE_FILE).ok().unwrap(),
        owned(&["AppName", "Tom&Jerry", "Last"])
    );
    let catalog = load_locale_catalog(RESOURCE_FILE).ok().unwrap();
    assert_eq!(catalog.len(), 3);
    assert_eq!(catalog.comment_of("AppName"), Some(&None));
    assert_eq!(catalog.comment_of("Tom&Jerry"), Some(&Some("Check <this>".to_string())));
    assert_eq!(catalog.pending_count(), 1);
}

#[test]
fn odd_documents_are_accepted_or_rejected() {
    let documents = [
        "<",
        ">",
        "</a>",
        "<a",
        "<a/",
        "<a/><b/>",
        "<a></b>",
        "<a b></a>",
        "<a b=></a>",
        "<a b='1' b='2'/>",
        "<a:b/>",
        "<xml:a/>",
        "<a xmlns:x=''><x:b/></a>",
        "<a>&unknown;</a>",
        "<a>&#0;</a>",
        "<a>&#xFFFFFFFF;</a>",
        "<a>&#;</a>",
        "<a>&</a>",
        "<!DOCTYPE a><a/>",
        "<!DOCTYPE a [<!ENTITY e 'x'>]><a>&e;</a>",
        "<?xml version=\"1.0\"?>",
        "<?xml version=\"9\"?><a/>",
        "<?xml?><a/>",
        "<a><?pi?></a>",
        "<a><!-- --></a>",
        "<a><!-- -- --></a>",
        "<a><![CDATA[x]]></a>",
        "<a><![CDATA[x</a>",
        "<a>]]></a>",
        "<root><data name=\"{ns}x\"/><data name=\"\"/></root>",
        "<root><data name='a' name='b'/></root>",
        "<root><data xmlns='urn:x' name='a'/></root>",
        "<root xmlns='urn:x'><data name='a'/></root>",
        "\u{feff}\u{feff}<root/>",
        "  <root/>  ",
        "<root/>trailing",
        "<root/><!-- after -->",
        "<\u{e9}l\u{e9}ment/>",
        "<a\u{0}/>",
        "\u{0}",
    ];
    for document in documents {
        let keys = load_reference_keys(document);
        let catalog = load_locale_catalog(document);
        assert_eq!(keys.is_ok(), catalog.is_ok(), "{:?}", document);
    }
}

#[test]
fn entries_in_a_namespace_are_not_entries() {
    assert!(load_reference_keys("<root xmlns='urn:x'><data name='a'/></root>")
        .ok()
        .unwrap()
        .is_empty());
    assert_eq!(
        load_reference_keys("<root><data name='{ns}x'/><data name=''/></root>").ok().unwrap(),
        owned(&["{ns}x", ""])
    );
}

#[test]
fn deeply_nested_document_is_read() {
    let depth = 200;
    let mut document = String::from("<root><data name=\"A\">");
    for _ in 0..depth {
        document.push_str("<n>");
    }
    for _ in 0..depth {
        document.push_str("</n>");
    }
    document.push_str("</data></root>");
    assert_eq!(load_reference_keys(&document).ok().unwrap(), owned(&["A"]));
}

#[test]
fn second_mark_is_left_to_the_reader() {
    let twice = load_reference_keys("\u{feff}\u{feff}<root><data name='A'/></root>");
    let once = load_reference_keys("\u{feff}<root><data name='A'/></root>");
    assert_eq!(once.ok().unwrap(), owned(&["A"]));
    assert!(matches!(twice, Err(CatalogParseError::Malformed { .. })));
}
