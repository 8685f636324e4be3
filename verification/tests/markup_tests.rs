use i18n_pseudo::markup::{find_html_tags, tag_len_at_exec};

fn tags(s: &str) -> Vec<String> {
    let chars: Vec<char> = s.chars().collect();
    find_html_tags(&chars)
        .into_iter()
        .map(|t| t.into_iter().collect())
        .collect()
}

fn regex_tags(s: &str) -> Vec<String> {
    let re = regex::Regex::new(r"</?[a-zA-Z][a-zA-Z0-9]*(?:\s+[^>]*)?>").unwrap();
    re.find_iter(s).map(|m| m.as_str().to_string()).collect()
}

#[test]
fn simple_tags() {
    assert_eq!(tags("Click <b>here</b> now"), vec!["<b>", "</b>"]);
    assert_eq!(tags("<a href=\"x\">y</a>"), vec!["<a href=\"x\">", "</a>"]);
    assert_eq!(tags("<br/>"), Vec::<String>::new());
    assert_eq!(tags("<br />"), vec!["<br />"]);
    assert_eq!(tags("a < b > c"), Vec::<String>::new());
    assert_eq!(tags("<h1>T</h1>"), vec!["<h1>", "</h1>"]);
    assert_eq!(tags("<1>"), Vec::<String>::new());
    assert_eq!(tags("<a\u{3000}x>"), vec!["<a\u{3000}x>"]);
    assert_eq!(tags("<a x"), Vec::<String>::new());
}

#[test]
fn tag_lengths() {
    let chars: Vec<char> = "x<em>y".chars().collect();
    assert_eq!(tag_len_at_exec(&chars, 0), None);
    assert_eq!(tag_len_at_exec(&chars, 1), Some(4));
}

#[test]
fn agrees_with_the_pattern() {
    let samples = [
        "Click <b>here</b> now",
        "<a href=\"{url}\">link</a> and <img src='a.png' alt=\"<x>\">",
        "<<b>> </ b> <//b> <b\t\nclass=x>",
        "<p>para<p>two</p></p>",
        "<A1B2>x</A1B2 >",
        "no tags",
        "<b",
        "<b >",
        "<b\u{00A0}x>",
        "<b\u{2003}y> <c\u{0085}z>",
        "</>",
        "<é>",
        "<a <b> c>",
        "text <span class=\"x\" data-y='1'>inner</span>",
    ];
    for s in samples {
        assert_eq!(tags(s), regex_tags(s), "{s:?}");
    }
}
