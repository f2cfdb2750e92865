use elementtree::Element;
use locale_audit::catalog::load_locale_catalog;
use locale_audit::document::{load_reference_keys, read_catalog_entries, CatalogParseError};
use locale_audit::nesting::{nesting_depth, nesting_within, MAX_NESTING};

fn nested(depth: usize) -> String {
    let mut document = String::new();
    for _ in 0..depth {
        document.push_str("<n>");
    }
    for _ in 0..depth {
        document.push_str("</n>");
    }
    document
}

/// The depth of the tree that the reader built.
fn depth_of(element: &Element) -> usize {
    1 + element.children().map(depth_of).max().unwrap_or(0)
}

#[test]
fn depth_counts_the_elements_that_are_open() {
    assert_eq!(nesting_depth(""), 0);
    assert_eq!(nesting_depth("no markup"), 0);
    assert_eq!(nesting_depth("<a/>"), 1);
    assert_eq!(nesting_depth("<a></a>"), 1);
    assert_eq!(nesting_depth("<a><b><c/></b></a>"), 3);
    assert_eq!(nesting_depth("<a><b/><b/><b><c/></b><b/></a>"), 3);
    assert_eq!(nesting_depth(&nested(40)), 40);
}

#[test]
fn depth_of_an_unfinished_document_counts_what_is_open() {
    assert_eq!(nesting_depth("<a><b><c>"), 3);
    assert_eq!(nesting_depth("<a><b></b></a></a></a><c><d>"), 2);
}

#[test]
fn flat_catalog_is_shallow() {
    let mut document = String::from("<?xml version=\"1.0\" encoding=\"utf-8\"?>\n<root>\n");
    for i in 0..5_000 {
        document.push_str(&format!(
            "  <data name=\"Key{}\" xml:space=\"preserve\">\n    <value>v</value>\n    <comment />\n  </data>\n",
            i
        ));
    }
    document.push_str("</root>");
    assert_eq!(nesting_depth(&document), 3);
    assert_eq!(load_reference_keys(&document).ok().unwrap().len(), 5_000);
}

#[test]
fn markup_inside_comments_cdata_and_instructions_is_not_counted() {
    assert_eq!(nesting_depth("<a><!-- <b><c><d> --></a>"), 1);
    assert_eq!(nesting_depth("<a><!-- </a></a> --><b><c/></b></a>"), 3);
    assert_eq!(nesting_depth("<a><![CDATA[<b><c></a>]]><b/></a>"), 2);
    assert_eq!(nesting_depth("<a><?pi <b><c> </a> ?><b/></a>"), 2);
    assert_eq!(nesting_depth("<!DOCTYPE a [<!ELEMENT a (b)>]><a><b/></a>"), 2);
}

#[test]
fn markup_inside_attribute_values_is_not_counted() {
    assert_eq!(nesting_depth("<a x=\"/>\"><b y='>'><c z=\"</b></a>\"/></b></a>"), 3);
    assert_eq!(nesting_depth("<a x=\">'\" y='>\"'><b/></a>"), 2);
    assert_eq!(nesting_depth("<a x = > \">\"><b/></a>"), 2);
}

#[test]
fn comment_goes_on_behind_a_comment_start_inside_it() {
    let document = "<a><!--<!--> </a> --><b><c/></b></a>";
    assert_eq!(nesting_depth(document), 3);
    assert_eq!(depth_of(&Element::from_reader(document.as_bytes()).unwrap()), 3);
}

#[test]
fn document_type_inside_a_comment_hides_the_end_of_the_comment() {
    let document = "<a><!-- <!DOCTYPE --> </a> --><b><c/></b></a>";
    assert_eq!(nesting_depth(document), 3);
    assert_eq!(depth_of(&Element::from_reader(document.as_bytes()).unwrap()), 3);
}

#[test]
fn count_goes_on_behind_the_root_element() {
    let document = "<a/><b><c><d/></c></b>";
    assert_eq!(depth_of(&Element::from_reader(document.as_bytes()).unwrap()), 1);
    assert_eq!(nesting_depth(document), 3);
}

#[test]
fn nesting_within_compares_with_the_limit() {
    assert!(nesting_within("<a><b/></a>", 2));
    assert!(!nesting_within("<a><b/></a>", 1));
    assert!(nesting_within("", 0));
    assert!(!nesting_within("<a/>", 0));
    assert!(nesting_within(&nested(MAX_NESTING), MAX_NESTING));
    assert!(!nesting_within(&nested(MAX_NESTING + 1), MAX_NESTING));
}

#[test]
fn document_at_the_limit_is_read() {
    assert_eq!(MAX_NESTING, 256);
    let mut document = String::from("<root><data name=\"A\">");
    document.push_str(&nested(MAX_NESTING - 2));
    document.push_str("</data></root>");
    assert_eq!(nesting_depth(&document), MAX_NESTING);
    assert_eq!(load_reference_keys(&document).ok().unwrap(), vec!["A".to_string()]);
    assert_eq!(load_locale_catalog(&document).ok().unwrap().len(), 1);
}

#[test]
fn document_beyond_the_limit_is_refused() {
    let mut document = String::from("\u{feff}<root><data name=\"A\">");
    document.push_str(&nested(MAX_NESTING - 1));
    document.push_str("</data></root>");
    assert!(matches!(load_reference_keys(&document), Err(CatalogParseError::TooDeep)));
    assert!(matches!(load_locale_catalog(&document), Err(CatalogParseError::TooDeep)));
    assert!(matches!(read_catalog_entries(&document), Err(CatalogParseError::TooDeep)));
    assert_eq!(CatalogParseError::TooDeep.message(), "elements are nested too deeply");
}

#[test]
fn very_deep_document_is_refused_before_it_is_read() {
    let deep = nested(200_000);
    assert_eq!(nesting_depth(&deep), 200_000);
    assert!(matches!(load_reference_keys(&deep), Err(CatalogParseError::TooDeep)));
    let open_only = "<n>".repeat(500_000);
    assert!(matches!(load_locale_catalog(&open_only), Err(CatalogParseError::TooDeep)));
}

struct Random(u64);

impl Random {
    fn next(&mut self, bound: usize) -> usize {
        self.0 = self.0.wrapping_mul(6364136223846793005).wrapping_add(1442695040888963407);
        ((self.0 >> 33) as usize) % bound
    }
}

const ODD: [&str; 48] = [
    ">", "/>", "</a>", "<!--", "-->", "--", "]]>", "]]", "?>", "<?", "'", "\"", "=", "<!-->",
    "<!DOCTYPE a>", "<![CDATA[", "<b>", "<b/>", " ", "x", "-", "]", "?", "/", "<!", "<!-", "<![",
    "<!D", "&amp;", "&", ";", "<", "<!DOCTYPE <<>", "]]]>", "</e>", "<e>", "<e", "<?xml ",
    "<?xml version=\"1.0\"?>", "=\"", "='", "\n", "\t", "<!DOCTYPE", "[<", ">]", "<?x ", "&#60;",
];

fn odd_text(random: &mut Random, out: &mut String, avoid: &[&str]) {
    for _ in 0..random.next(4) {
        let piece = ODD[random.next(ODD.len())];
        if random.next(4) != 0 && avoid.iter().any(|a| piece.contains(a)) {
            out.push('x');
        } else {
            out.push_str(piece);
        }
    }
}

fn element(random: &mut Random, out: &mut String, budget: usize) {
    out.push_str("<e");
    for i in 0..random.next(3) {
        let quote = if random.next(2) == 0 { "\"" } else { "'" };
        out.push_str(&format!(" a{}", i));
        if random.next(4) == 0 {
            out.push(' ');
        }
        out.push('=');
        if random.next(8) == 0 {
            odd_text(random, out, &["<", "\"", "'", "&"]);
        }
        out.push_str(quote);
        odd_text(random, out, &["<b", "< ", quote, "&"]);
        out.push_str(quote);
    }
    if random.next(3) == 0 {
        out.push_str("/>");
        return;
    }
    out.push('>');
    for _ in 0..random.next(4) {
        match random.next(7) {
            0 if budget > 0 => element(random, out, budget - 1),
            1 => {
                out.push_str("<!--");
                odd_text(random, out, &["--"]);
                out.push_str("-->");
            }
            2 => {
                out.push_str("<![CDATA[");
                odd_text(random, out, &["]]>"]);
                out.push_str("]]>");
            }
            3 => {
                out.push_str("<?pi ");
                odd_text(random, out, &["?>"]);
                out.push_str("?>");
            }
            4 => odd_text(random, out, &["<", "&", "]]>"]),
            5 => odd_text(random, out, &[]),
            _ => out.push_str("text"),
        }
    }
    out.push_str("</e>");
}

fn document(random: &mut Random) -> String {
    let mut out = String::new();
    if random.next(3) == 0 {
        out.push_str("<?xml version=\"1.0\"");
        if random.next(2) == 0 {
            out.push_str(" encoding=\"");
            odd_text(random, &mut out, &["<", "\"", "&"]);
            out.push('"');
        }
        out.push_str("?>");
    }
    if random.next(4) == 0 {
        out.push_str("<!DOCTYPE e [");
        odd_text(random, &mut out, &[]);
        out.push_str("]>");
    }
    if random.next(4) == 0 {
        out.push_str("<!--");
        odd_text(random, &mut out, &["--"]);
        out.push_str("-->");
    }
    element(random, &mut out, 6);
    out
}

#[test]
fn depth_is_never_below_the_depth_of_the_tree_that_the_reader_builds() {
    let mut random = Random(0x5eed);
    let mut accepted = 0;
    let mut exact = 0;
    let mut deepest = 0;
    for _ in 0..200_000 {
        let text = document(&mut random);
        let counted = nesting_depth(&text);
        if let Ok(root) = Element::from_reader(text.as_bytes()) {
            let built = depth_of(&root);
            assert!(built <= counted, "{:?}: built {}, counted {}", text, built, counted);
            accepted += 1;
            if built == counted {
                exact += 1;
            }
            deepest = deepest.max(built);
        }
    }
    assert!(accepted > 50_000, "accepted {}", accepted);
    assert!(deepest >= 5, "deepest {}", deepest);
    // The count goes on behind the end of the root element, where the reader
    // stops: only there may it be larger than the tree is deep.
    assert!(exact * 100 >= accepted * 99, "exact {} of {}", exact, accepted);
}
