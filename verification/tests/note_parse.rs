use noteutil::note::Link;
use noteutil::note::LinkUrl;
use noteutil::note::Note;

#[test]
fn test_note_parse() {
    let content = "# Title\nThis is a [link title](link_url).\n";
    let note = Note::from_text("/tmp/note.md", content).unwrap();

    assert_eq!(
        note.links,
        vec![Link {
            title: Some(String::from("link title")),
            url: LinkUrl::File(String::from("/tmp/link_url")),
        }]
    );

    assert_eq!(note.title, "Title");
}

#[test]
fn title_falls_back_to_base_name() {
    let note = Note::from_text("/a/b/plain.md", "nothing but a paragraph\n").unwrap();
    assert_eq!(note.title, "plain.md");
    assert!(note.links.is_empty());
}

#[test]
fn single_heading_overrides_base_name() {
    let note = Note::from_text("/a/b/plain.md", "# Better Title\ntext\n").unwrap();
    assert_eq!(note.title, "Better Title");
}

#[test]
fn last_of_two_headings_wins() {
    let note = Note::from_text("note.md", "# First\n\nsome text\n\n# Second\n").unwrap();
    assert_eq!(note.title, "Second");
}

#[test]
fn deep_heading_does_not_override() {
    let note = Note::from_text("note.md", "## Subsection\ntext\n").unwrap();
    assert_eq!(note.title, "note.md");
}

#[test]
fn link_resolution_round_trip() {
    // parent-join only: the `..` segment is kept, not collapsed
    let note = Note::from_text("/a/b/note.md", "[title](../c/target.md)\n").unwrap();
    assert_eq!(
        note.links,
        vec![Link {
            title: Some(String::from("title")),
            url: LinkUrl::File(String::from("/a/b/../c/target.md")),
        }]
    );
    assert!(note.link_to("/a/b/../c/target.md"));
    assert!(!note.link_to("/a/c/target.md"));
}

#[test]
fn web_urls_are_kept_verbatim() {
    let note = Note::from_text("/a/note.md", "see [site](https://example.com/x)\n").unwrap();
    assert_eq!(
        note.links,
        vec![Link {
            title: Some(String::from("site")),
            url: LinkUrl::Web(String::from("https://example.com/x")),
        }]
    );
    assert!(note.link_to("https://example.com/x"));
    assert!(!note.link_to("https://example.com/y"));
}

#[test]
fn link_without_text_child_has_no_title() {
    let note = Note::from_text("/a/note.md", "[**bold**](target.md)\n").unwrap();
    assert_eq!(note.links.len(), 1);
    assert_eq!(note.links[0].title, None);
    assert_eq!(note.links[0].url, LinkUrl::File(String::from("/a/target.md")));
}

#[test]
fn links_keep_document_order() {
    let note =
        Note::from_text("d/n.md", "[one](1.md) then [two](2.md)\n\n[three](3.md)\n").unwrap();
    let urls: Vec<&LinkUrl> = note.links.iter().map(|l| &l.url).collect();
    assert_eq!(
        urls,
        vec![
            &LinkUrl::File(String::from("d/1.md")),
            &LinkUrl::File(String::from("d/2.md")),
            &LinkUrl::File(String::from("d/3.md")),
        ]
    );
}

#[test]
fn is_filesystem_url_classifies() {
    assert!(Note::is_filesystem_url("notes/a.md"));
    assert!(Note::is_filesystem_url("../up.md"));
    assert!(!Note::is_filesystem_url("http://example.com"));
    assert!(!Note::is_filesystem_url("https://example.com"));
}
