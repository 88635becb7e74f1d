use guide::document::{build_document, DocumentBuilder, Event, Node, RootNode, Tag};
use guide::layout::{layout, Measure, PlacedRun};
use guide::markdown::parse_document;
use guide::measure::word_requests;
use guide::style::Properties;
use guide::text::{word_count, words};
use guide::viewport::{content_extent, ContentExtent, Viewport};

fn m(width: u32, height: u32) -> Measure {
    Measure { width, height }
}

fn text(s: &str) -> Event {
    Event::Text(s.to_string())
}

fn at(r: &PlacedRun) -> (i64, i64) {
    (r.x, r.y)
}

fn block(new_line: bool, top: i32, bottom: i32, runs: &[&str]) -> RootNode {
    let mut r = RootNode::new();
    r.new_line = new_line;
    r.margin_top = top;
    r.margin_bottom = bottom;
    for t in runs {
        r.nodes.push(Node::new(t.to_string(), Properties::new()));
    }
    r
}

#[test]
fn header_title_layout() {
    let events = vec![Event::Start(Tag::Header(1)), text("Title"), Event::End];
    let doc = build_document(&events);
    assert_eq!(doc.len(), 1);
    assert_eq!(doc[0].nodes.len(), 1);
    let p = doc[0].nodes[0].properties;
    assert_eq!(p.font_size, Some(40));
    assert_eq!(p.strong, Some(true));
    assert_eq!(doc[0].margin_top, 30);
    assert_eq!(doc[0].margin_bottom, 30);
    let reqs = word_requests(&doc);
    assert_eq!(reqs.len(), 1);
    let placed = layout(&doc, &vec![m(90, 40)], 800);
    assert_eq!(placed.len(), 1);
    assert_eq!(at(&placed[0]), (0, 30));
}

#[test]
fn overflowing_word_wraps() {
    let events = vec![Event::Start(Tag::Paragraph), text("a b"), Event::End];
    let doc = build_document(&events);
    let placed = layout(&doc, &vec![m(6, 12), m(6, 12)], 10);
    assert_eq!(placed.len(), 2);
    let y = placed[0].y;
    assert_eq!(at(&placed[0]), (0, y));
    assert_eq!(at(&placed[1]), (0, y + 12));
}

#[test]
fn unmatched_end_is_absorbed() {
    let mut b = DocumentBuilder::new();
    b.handle(&Event::End);
    assert_eq!(b.styles.len(), 0);
    b.handle(&text("x"));
    assert_eq!(b.pending.nodes[0].properties, Properties::new());
    let doc = b.finish();
    assert_eq!(doc.len(), 0);
}

#[test]
fn other_tags_are_transparent() {
    let events = vec![
        Event::Start(Tag::Paragraph), text("x"),
        Event::Start(Tag::Other), text("y"), Event::End,
        text("z"), Event::End,
    ];
    let doc = build_document(&events);
    assert_eq!(doc.len(), 1);
    assert_eq!((doc[0].new_line, doc[0].margin_top, doc[0].margin_bottom), (true, 5, 10));
    let texts: Vec<&str> = doc[0].nodes.iter().map(|n| n.text.as_str()).collect();
    assert_eq!(texts, vec!["x", "y", "z"]);
    for n in &doc[0].nodes {
        assert_eq!(n.properties, Properties::new());
    }
}

#[test]
fn blocks_without_text_are_not_emitted() {
    assert_eq!(build_document(&vec![Event::Start(Tag::Paragraph), Event::End]).len(), 0);
    assert_eq!(build_document(&vec![Event::End]).len(), 0);
    let doc = parse_document("a\n\n---\n\nb\n");
    assert_eq!(doc.len(), 2);
    assert_eq!(doc[1].nodes[0].text, "b");
}

#[test]
fn link_stays_inside_its_paragraph() {
    let doc = parse_document("x [y](u) z\n");
    assert_eq!(doc.len(), 1);
    let texts: Vec<&str> = doc[0].nodes.iter().map(|n| n.text.as_str()).collect();
    assert_eq!(texts, vec!["x ", "y", " z"]);
}

#[test]
fn scroll_past_short_document() {
    let mut v = Viewport::new(800, 900);
    v.on_content_changed(ContentExtent { width: 300, height: 500 });
    v.on_scroll(0, -10);
    assert_eq!(v.offset_y, 0);
    v.on_scroll(0, 10);
    assert_eq!(v.offset_y, 0);
}

#[test]
fn margins_accumulate_between_blocks() {
    let doc = vec![block(true, 0, 10, &["one"]), block(true, 20, 0, &["two"])];
    let placed = layout(&doc, &vec![m(30, 12), m(30, 14)], 800);
    assert_eq!(at(&placed[0]), (0, 0));
    assert_eq!(at(&placed[1]), (0, 30 + 12));
}

#[test]
fn one_placement_per_word_and_per_single_word_run() {
    let doc = vec![block(true, 5, 10, &["a b", "c"]), block(true, 5, 10, &["d"])];
    let placed = layout(&doc, &vec![m(5, 10); 4], 800);
    assert_eq!(placed.len(), 4);
    let single = vec![block(true, 5, 10, &["x", " y "]), block(false, 0, 0, &["z"])];
    let placed = layout(&single, &vec![m(5, 10); 3], 800);
    assert_eq!(placed.len(), 3);
}

#[test]
fn layout_is_repeatable() {
    let doc = parse_document("# Head\n\nSome text that wraps **here** and there\n");
    let sizes: Vec<Measure> = word_requests(&doc).iter().map(|r| m(r.text.len() as u32 * 9, r.font_size)).collect();
    let a = layout(&doc, &sizes, 120);
    let b = layout(&doc, &sizes, 120);
    assert_eq!(a, b);
}

#[test]
fn words_keep_their_measured_size() {
    let doc = vec![block(true, 5, 10, &["aa bbbbbbbb c"])];
    let sizes = vec![m(20, 11), m(80, 12), m(10, 13)];
    let placed = layout(&doc, &sizes, 50);
    for (p, s) in placed.iter().zip(sizes.iter()) {
        assert_eq!((p.width, p.height), (s.width, s.height));
    }
    assert_eq!(at(&placed[0]), (0, 5));
    assert_eq!(at(&placed[1]), (0, 17));
    assert_eq!(at(&placed[2]), (0, 30));
}

#[test]
fn clamp_holds_after_any_calls() {
    let mut v = Viewport::new(100, 50);
    let check = |v: &Viewport| {
        let mx = std::cmp::max(0, v.extent.width - v.width as i64);
        let my = std::cmp::max(0, v.extent.height - v.height as i64);
        assert!(0 <= v.offset_x && v.offset_x <= mx);
        assert!(0 <= v.offset_y && v.offset_y <= my);
    };
    v.on_content_changed(ContentExtent { width: 400, height: 1000 });
    check(&v);
    v.on_scroll(-3, -30);
    check(&v);
    assert_eq!(v.offset_x, 144);
    assert_eq!(v.offset_y, 950);
    assert!(!v.on_resize(100, 600));
    check(&v);
    assert_eq!(v.offset_y, 400);
    assert!(v.on_resize(500, 600));
    check(&v);
    assert_eq!(v.offset_x, 0);
    v.on_content_changed(ContentExtent { width: 10, height: 10 });
    check(&v);
    assert_eq!((v.offset_x, v.offset_y), (0, 0));
}

#[test]
fn whitespace_moves_the_cursor() {
    let doc = vec![block(true, 0, 0, &[" a ", "b"])];
    let placed = layout(&doc, &vec![m(10, 10), m(10, 10)], 800);
    assert_eq!(at(&placed[0]), (8, 0));
    assert_eq!(at(&placed[1]), (26, 0));
}

#[test]
fn new_line_block_starts_below_previous_line() {
    let doc = vec![block(true, 0, 0, &["a"]), block(false, 0, 0, &["b"]), block(true, 0, 0, &["c"])];
    let placed = layout(&doc, &vec![m(10, 7), m(10, 9), m(10, 10)], 800);
    assert_eq!(at(&placed[0]), (0, 0));
    assert_eq!(at(&placed[1]), (10, 0));
    assert_eq!(at(&placed[2]), (0, 9));
}

#[test]
fn empty_block_adds_only_margins() {
    let doc = vec![block(true, 5, 10, &[]), block(true, 5, 10, &["a"])];
    let placed = layout(&doc, &vec![m(10, 10)], 800);
    assert_eq!(at(&placed[0]), (0, 20));
}

#[test]
fn wide_word_is_placed_without_wrapping() {
    let doc = vec![block(true, 0, 0, &["enormous"])];
    let placed = layout(&doc, &vec![m(500, 10)], 100);
    assert_eq!(at(&placed[0]), (0, 0));
    assert_eq!(placed[0].width, 500);
}

#[test]
fn header_levels_and_margins() {
    let events = vec![
        Event::Start(Tag::Header(2)), text("b"), Event::End,
        Event::Start(Tag::Header(5)), text("c"), Event::End,
    ];
    let doc = build_document(&events);
    assert_eq!(doc[0].nodes[0].properties.font_size, Some(33));
    assert_eq!(doc[0].nodes[0].properties.strong, None);
    assert_eq!((doc[0].margin_top, doc[0].margin_bottom), (20, 20));
    assert_eq!(doc[1].nodes[0].properties.font_size, Some(25));
    assert_eq!((doc[1].margin_top, doc[1].margin_bottom), (15, 15));
}

#[test]
fn emphasis_inherits_and_keeps_block_attributes() {
    let events = vec![
        Event::Start(Tag::Header(2)), text("a"),
        Event::Start(Tag::Emphasis), text("b"), Event::End,
        Event::Start(Tag::Other), text("c"), Event::End,
        Event::End,
    ];
    let doc = build_document(&events);
    assert_eq!(doc.len(), 1);
    let nodes = &doc[0].nodes;
    assert_eq!(nodes[1].properties.font_size, Some(33));
    assert_eq!(nodes[1].properties.strong, Some(true));
    assert_eq!(nodes[2].properties.font_size, Some(33));
    assert_eq!(nodes[2].properties.strong, None);
    assert_eq!((doc[0].margin_top, doc[0].new_line), (20, true));
}

#[test]
fn paragraph_sets_margins_and_default_style() {
    let doc = build_document(&vec![Event::Start(Tag::Paragraph), text("p"), Event::Ignored, Event::End]);
    assert_eq!(doc.len(), 1);
    assert_eq!((doc[0].new_line, doc[0].margin_top, doc[0].margin_bottom), (true, 5, 10));
    assert_eq!(doc[0].nodes[0].properties, Properties::new());
}

#[test]
fn markdown_source_becomes_blocks() {
    let doc = parse_document("# Title\n\nHello **world**\n");
    assert_eq!(doc.len(), 2);
    assert_eq!(doc[0].nodes[0].text, "Title");
    assert_eq!(doc[0].nodes[0].properties.font_size, Some(40));
    assert_eq!(doc[1].nodes.len(), 2);
    assert_eq!(doc[1].nodes[0].text, "Hello ");
    assert_eq!(doc[1].nodes[1].text, "world");
    assert_eq!(doc[1].nodes[1].properties.strong, Some(true));
}

#[test]
fn requests_carry_words_and_fonts() {
    let doc = parse_document("Hello **big world**\n");
    let reqs = word_requests(&doc);
    let got: Vec<(String, u32, bool)> = reqs.iter().map(|r| (r.text.clone(), r.font_size, r.strong)).collect();
    assert_eq!(
        got,
        vec![("Hello".to_string(), 20, false), ("big".to_string(), 20, true), ("world".to_string(), 20, true)]
    );
}

#[test]
fn splitting_words() {
    assert_eq!(words("a  b"), vec!["a".to_string(), String::new(), "b".to_string()]);
    assert_eq!(words("   "), vec![String::new()]);
    assert_eq!(words("\tone two\n"), vec!["one".to_string(), "two".to_string()]);
    assert_eq!(word_count("a  b"), 3);
    assert_eq!(word_count(""), 1);
}

#[test]
fn extent_and_visible_runs() {
    let runs = vec![
        PlacedRun { x: 0, y: 0, width: 50, height: 10 },
        PlacedRun { x: 60, y: 100, width: 30, height: 20 },
        PlacedRun { x: 0, y: 300, width: 10, height: 10 },
    ];
    let e = content_extent(&runs);
    assert_eq!(e, ContentExtent { width: 90, height: 310 });
    assert_eq!(content_extent(&vec![]), ContentExtent { width: 0, height: 0 });
    let mut v = Viewport::new(100, 120);
    v.on_content_changed(e);
    v.on_scroll(0, -1);
    assert_eq!(v.offset_y, 48);
    let shown = v.visible_runs(&runs);
    assert_eq!(shown, vec![(1, PlacedRun { x: 60, y: 52, width: 30, height: 20 })]);
}

#[test]
fn constructors_start_empty() {
    let p = Properties::new();
    assert_eq!((p.font_size, p.strong, p.italic), (None, None, None));
    let r = RootNode::new();
    assert_eq!((r.new_line, r.margin_top, r.margin_bottom, r.nodes.len()), (false, 0, 0, 0));
    let n = Node::new("w".to_string(), p);
    assert_eq!(n.text, "w");
}
