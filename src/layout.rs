//! The flow layout: positions every word of a document under word wrap and block margins.
//!
//! Coordinates are `i64` and saturate at its bounds.
use vstd::prelude::*;
use crate::document::{Node, NodeView, RootNode, RootView, roots_view};
use crate::text::{count_leading_ws, count_trailing_ws, leading_ws, trailing_ws, word_count, words_of};

verus! {

/// The rendered size of one word, as the font service measured it.
#[derive(Copy, Clone, Debug, PartialEq, Eq, Structural)]
pub struct Measure {
    pub width: u32,
    pub height: u32,
}

/// A word placed at `(x, y)` with its measured size.
#[derive(Copy, Clone, Debug, PartialEq, Eq, Structural)]
pub struct PlacedRun {
    pub x: i64,
    pub y: i64,
    pub width: u32,
    pub height: u32,
}

/// Pixels per leading or trailing white-space character, and between two words of a run.
pub const SPACE_WIDTH: i64 = 8;

/// `v` clamped to the range of `i64`.
pub open spec fn sat(v: int) -> int {
    if v > i64::MAX {
        i64::MAX as int
    } else if v < i64::MIN {
        i64::MIN as int
    } else {
        v
    }
}

/// `a + b`, saturating at the bounds of `i64`.
pub fn sat_add(a: i64, b: i64) -> (r: i64)
    ensures
        r == sat(a + b),
{
    if b > 0 && a > i64::MAX - b {
        i64::MAX
    } else if b < 0 && a < i64::MIN - b {
        i64::MIN
    } else {
        a + b
    }
}

/// The pixel width of `n` white-space characters, saturating.
pub fn ws_offset(n: usize) -> (r: i64)
    ensures
        r == sat(8 * n),
{
    if n as u64 > 1152921504606846975u64 {
        i64::MAX
    } else {
        (n as i64) * SPACE_WIDTH
    }
}

/// The state of the layout between two words.
pub struct Cursor {
    pub x: int,
    pub y: int,
    /// The height of the last placed word.
    pub prev_height: int,
    /// The next word starts a new line first (the block's new-line flag, not yet used).
    pub pending_break: bool,
    pub placed: Seq<PlacedRun>,
}

pub open spec fn initial_cursor() -> Cursor {
    Cursor { x: 0, y: 0, prev_height: 0, pending_break: false, placed: Seq::empty() }
}

/// Places one word of size `m`; `first_in_run` says whether it opens its run.
pub open spec fn word_step(c: Cursor, m: Measure, width: int, first_in_run: bool) -> Cursor {
    let x0 = if first_in_run { c.x } else { sat(c.x + 8) };
    let x1 = if c.pending_break { 0 } else { x0 };
    let y1 = if c.pending_break { sat(c.y + c.prev_height) } else { c.y };
    let wraps = x1 + m.width >= width && x1 > 0;
    let x2 = if wraps { 0 } else { x1 };
    let y2 = if wraps { sat(y1 + m.height) } else { y1 };
    Cursor {
        x: sat(x2 + m.width),
        y: y2,
        prev_height: m.height as int,
        pending_break: false,
        placed: c.placed.push(PlacedRun { x: x2 as i64, y: y2 as i64, width: m.width, height: m.height }),
    }
}

/// The cursor after `n` words of a run, each measured by the entry of `sizes` at the number
/// of words placed before it.
pub open spec fn words_prefix(c: Cursor, sizes: Seq<Measure>, width: int, n: nat) -> Cursor
    decreases n,
{
    if n == 0 {
        c
    } else {
        let p = words_prefix(c, sizes, width, (n - 1) as nat);
        word_step(p, sizes[p.placed.len() as int], width, n == 1)
    }
}

/// Places a run: its leading white space, its words, its trailing white space.
pub open spec fn run_step(c: Cursor, n: NodeView, sizes: Seq<Measure>, width: int) -> Cursor {
    let c1 = Cursor { x: sat(c.x + sat(8 * leading_ws(n.text) as int)), ..c };
    let c2 = words_prefix(c1, sizes, width, words_of(n.text).len());
    Cursor { x: sat(c2.x + sat(8 * trailing_ws(n.text) as int)), ..c2 }
}

/// The cursor after the first `j` runs of `nodes`.
pub open spec fn runs_prefix(c: Cursor, nodes: Seq<NodeView>, sizes: Seq<Measure>, width: int, j: nat) -> Cursor
    decreases j,
{
    if j == 0 || j > nodes.len() {
        c
    } else {
        run_step(runs_prefix(c, nodes, sizes, width, (j - 1) as nat), nodes[j - 1], sizes, width)
    }
}

/// Places a block, after the previous block's bottom margin `prev_margin`.
pub open spec fn para_step(c: Cursor, p: RootView, prev_margin: int, first: bool, sizes: Seq<Measure>, width: int) -> Cursor {
    let c1 = Cursor {
        y: sat(sat(c.y + prev_margin) + p.margin_top),
        pending_break: p.new_line && !first,
        ..c
    };
    runs_prefix(c1, p.nodes, sizes, width, p.nodes.len())
}

/// The bottom margin of the block before block `i` (none before the first).
pub open spec fn prev_margin_of(doc: Seq<RootView>, i: int) -> int {
    if i > 0 { doc[i - 1].margin_bottom as int } else { 0 }
}

/// The cursor after the first `i` blocks of `doc`.
pub open spec fn paras_prefix(doc: Seq<RootView>, sizes: Seq<Measure>, width: int, i: nat) -> Cursor
    decreases i,
{
    if i == 0 || i > doc.len() {
        initial_cursor()
    } else {
        para_step(
            paras_prefix(doc, sizes, width, (i - 1) as nat),
            doc[i - 1],
            prev_margin_of(doc, i - 1),
            i == 1,
            sizes,
            width,
        )
    }
}

/// The placed words of a whole document, in order.
pub open spec fn layout_spec(doc: Seq<RootView>, sizes: Seq<Measure>, width: int) -> Seq<PlacedRun> {
    paras_prefix(doc, sizes, width, doc.len()).placed
}

/// The number of words of a run.
pub open spec fn run_words(n: NodeView) -> nat {
    words_of(n.text).len()
}

/// The number of words in the first `j` runs.
pub open spec fn nodes_words(nodes: Seq<NodeView>, j: nat) -> nat
    decreases j,
{
    if j == 0 || j > nodes.len() {
        0
    } else {
        nodes_words(nodes, (j - 1) as nat) + run_words(nodes[j - 1])
    }
}

/// The number of words of a block.
pub open spec fn para_words(p: RootView) -> nat {
    nodes_words(p.nodes, p.nodes.len())
}

/// The number of words in the first `i` blocks.
pub open spec fn doc_words_prefix(doc: Seq<RootView>, i: nat) -> nat
    decreases i,
{
    if i == 0 || i > doc.len() {
        0
    } else {
        doc_words_prefix(doc, (i - 1) as nat) + para_words(doc[i - 1])
    }
}

/// The number of words of a document: one measurement is needed for each.
pub open spec fn doc_words(doc: Seq<RootView>) -> nat {
    doc_words_prefix(doc, doc.len())
}

proof fn lemma_nodes_words_mono(nodes: Seq<NodeView>, j: nat, k: nat)
    requires
        j <= k <= nodes.len(),
    ensures
        nodes_words(nodes, j) <= nodes_words(nodes, k),
    decreases k,
{
    if j < k {
        lemma_nodes_words_mono(nodes, j, (k - 1) as nat);
    }
}

proof fn lemma_doc_words_mono(doc: Seq<RootView>, i: nat, k: nat)
    requires
        i <= k <= doc.len(),
    ensures
        doc_words_prefix(doc, i) <= doc_words_prefix(doc, k),
    decreases k,
{
    if i < k {
        lemma_doc_words_mono(doc, i, (k - 1) as nat);
    }
}

/// The layout's running state.
pub struct LayoutCursor {
    pub x: i64,
    pub y: i64,
    pub prev_height: u32,
    pub pending_break: bool,
    pub placed: Vec<PlacedRun>,
}

impl View for LayoutCursor {
    type V = Cursor;

    open spec fn view(&self) -> Cursor {
        Cursor {
            x: self.x as int,
            y: self.y as int,
            prev_height: self.prev_height as int,
            pending_break: self.pending_break,
            placed: self.placed@,
        }
    }
}

impl LayoutCursor {
    pub fn new() -> (r: LayoutCursor)
        ensures
            r@ == initial_cursor(),
    {
        LayoutCursor { x: 0, y: 0, prev_height: 0, pending_break: false, placed: Vec::new() }
    }

    /// Places one word of size `m`, wrapping before it where it would reach `width`.
    pub fn place_word(&mut self, m: Measure, width: u32, first_in_run: bool)
        ensures
            final(self)@ == word_step(old(self)@, m, width as int, first_in_run),
    {
        if !first_in_run {
            self.x = sat_add(self.x, SPACE_WIDTH);
        }
        if self.pending_break {
            self.pending_break = false;
            self.x = 0;
            self.y = sat_add(self.y, self.prev_height as i64);
        }
        if (self.x as i128) + (m.width as i128) >= width as i128 && self.x > 0 {
            self.x = 0;
            self.y = sat_add(self.y, m.height as i64);
        }
        self.placed.push(PlacedRun { x: self.x, y: self.y, width: m.width, height: m.height });
        self.prev_height = m.height;
        self.x = sat_add(self.x, m.width as i64);
    }

    /// Places a run, taking the size of its words from `sizes` from the number of words
    /// placed so far on.
    pub fn place_run(&mut self, node: &Node, sizes: &Vec<Measure>, width: u32)
        requires
            old(self)@.placed.len() + run_words(node@) <= sizes@.len(),
        ensures
            final(self)@ == run_step(old(self)@, node@, sizes@, width as int),
    {
        let s = node.text.as_str();
        let lead = count_leading_ws(s);
        let trail = count_trailing_ws(s, lead);
        let n = word_count(s);
        self.x = sat_add(self.x, ws_offset(lead));
        let ghost c1 = self@;
        let mut w: usize = 0;
        while w < n
            invariant
                n == run_words(node@),
                c1.placed.len() + n <= sizes@.len(),
                w <= n,
                self.placed@.len() == c1.placed.len() + w,
                self@ == words_prefix(c1, sizes@, width as int, w as nat),
            decreases n - w,
        {
            let m = sizes[self.placed.len()];
            self.place_word(m, width, w == 0);
            w += 1;
        }
        self.x = sat_add(self.x, ws_offset(trail));
    }

    /// Places a block that follows a block with bottom margin `prev_margin`.
    pub fn place_paragraph(&mut self, para: &RootNode, prev_margin: i32, first: bool, sizes: &Vec<Measure>, width: u32)
        requires
            old(self)@.placed.len() + para_words(para@) <= sizes@.len(),
        ensures
            final(self)@ == para_step(old(self)@, para@, prev_margin as int, first, sizes@, width as int),
    {
        self.y = sat_add(sat_add(self.y, prev_margin as i64), para.margin_top as i64);
        self.pending_break = para.new_line && !first;
        let ghost c1 = self@;
        let ghost nodes = para@.nodes;
        let n = para.nodes.len();
        let mut j: usize = 0;
        while j < n
            invariant
                n == nodes.len(),
                nodes == para@.nodes,
                c1.placed.len() + nodes_words(nodes, n as nat) <= sizes@.len(),
                j <= n,
                self.placed@.len() == c1.placed.len() + nodes_words(nodes, j as nat),
                self@ == runs_prefix(c1, nodes, sizes@, width as int, j as nat),
            decreases n - j,
        {
            proof {
                lemma_nodes_words_mono(nodes, (j + 1) as nat, n as nat);
            }
            let ghost before = self.placed@.len();
            self.place_run(&para.nodes[j], sizes, width);
            proof {
                assert(self.placed@.len() == before + run_words(nodes[j as int])) by {
                    lemma_run_step_len(runs_prefix(c1, nodes, sizes@, width as int, j as nat), nodes[j as int], sizes@, width as int);
                }
            }
            j += 1;
        }
    }
}

proof fn lemma_words_prefix_len(c: Cursor, sizes: Seq<Measure>, width: int, n: nat)
    ensures
        words_prefix(c, sizes, width, n).placed.len() == c.placed.len() + n,
    decreases n,
{
    if n > 0 {
        lemma_words_prefix_len(c, sizes, width, (n - 1) as nat);
    }
}

proof fn lemma_run_step_len(c: Cursor, n: NodeView, sizes: Seq<Measure>, width: int)
    ensures
        run_step(c, n, sizes, width).placed.len() == c.placed.len() + run_words(n),
{
    let c1 = Cursor { x: sat(c.x + sat(8 * leading_ws(n.text) as int)), ..c };
    lemma_words_prefix_len(c1, sizes, width, words_of(n.text).len());
}

/// Positions every word of `doc` for a viewport `width` pixels wide; `sizes` holds the
/// measured size of each word in document order.
pub fn layout(doc: &Vec<RootNode>, sizes: &Vec<Measure>, width: u32) -> (r: Vec<PlacedRun>)
    requires
        sizes@.len() == doc_words(roots_view(doc@)),
    ensures
        r@ == layout_spec(roots_view(doc@), sizes@, width as int),
{
    let ghost d = roots_view(doc@);
    let mut c = LayoutCursor::new();
    let n = doc.len();
    let mut i: usize = 0;
    while i < n
        invariant
            n == d.len(),
            d == roots_view(doc@),
            sizes@.len() == doc_words(d),
            i <= n,
            c.placed@.len() == doc_words_prefix(d, i as nat),
            c@ == paras_prefix(d, sizes@, width as int, i as nat),
        decreases n - i,
    {
        proof {
            lemma_doc_words_mono(d, (i + 1) as nat, n as nat);
        }
        let prev_margin = if i > 0 { doc[i - 1].margin_bottom } else { 0 };
        let ghost before = c@;
        c.place_paragraph(&doc[i], prev_margin, i == 0, sizes, width);
        proof {
            lemma_para_step_len(before, d[i as int], prev_margin as int, i == 0, sizes@, width as int);
        }
        i += 1;
    }
    c.placed
}

proof fn lemma_runs_prefix_len(c: Cursor, nodes: Seq<NodeView>, sizes: Seq<Measure>, width: int, j: nat)
    requires
        j <= nodes.len(),
    ensures
        runs_prefix(c, nodes, sizes, width, j).placed.len() == c.placed.len() + nodes_words(nodes, j),
    decreases j,
{
    if j > 0 {
        lemma_runs_prefix_len(c, nodes, sizes, width, (j - 1) as nat);
        lemma_run_step_len(runs_prefix(c, nodes, sizes, width, (j - 1) as nat), nodes[j - 1], sizes, width);
    }
}

proof fn lemma_para_step_len(c: Cursor, p: RootView, prev_margin: int, first: bool, sizes: Seq<Measure>, width: int)
    ensures
        para_step(c, p, prev_margin, first, sizes, width).placed.len() == c.placed.len() + para_words(p),
{
    let c1 = Cursor {
        y: sat(sat(c.y + prev_margin) + p.margin_top),
        pending_break: p.new_line && !first,
        ..c
    };
    lemma_runs_prefix_len(c1, p.nodes, sizes, width, p.nodes.len());
}

/// The cursor's line is within the range of `i64`.
pub open spec fn y_in_range(c: Cursor) -> bool {
    i64::MIN <= c.y <= i64::MAX
}

/// Every word of `c` so far has the size measured for it.
pub open spec fn sizes_kept(c: Cursor, sizes: Seq<Measure>) -> bool {
    forall|k: int|
        0 <= k < c.placed.len() ==> (#[trigger] c.placed[k]).width == sizes[k].width && c.placed[k].height == sizes[k].height
}

/// `b` keeps every entry of `a` and may add more after them.
pub open spec fn extends(a: Seq<PlacedRun>, b: Seq<PlacedRun>) -> bool {
    a.len() <= b.len() && forall|k: int| 0 <= k < a.len() ==> #[trigger] b[k] == a[k]
}

/// The cursor stands on the line of the last placed word, which it remembers as the line height.
pub open spec fn on_last_line(c: Cursor) -> bool {
    c.placed.len() > 0 ==> c.y == c.placed.last().y && c.prev_height == c.placed.last().height
}

proof fn lemma_words_prefix_facts(c: Cursor, sizes: Seq<Measure>, width: int, n: nat)
    ensures
        sizes_kept(c, sizes) ==> sizes_kept(words_prefix(c, sizes, width, n), sizes),
        extends(c.placed, words_prefix(c, sizes, width, n).placed),
        n > 0 ==> words_prefix(c, sizes, width, n).placed.len() > 0,
        n > 0 && y_in_range(c) ==> on_last_line(words_prefix(c, sizes, width, n)),
        y_in_range(c) ==> y_in_range(words_prefix(c, sizes, width, n)),
        n == 0 ==> words_prefix(c, sizes, width, n) == c,
    decreases n,
{
    if n > 0 {
        lemma_words_prefix_facts(c, sizes, width, (n - 1) as nat);
        let p = words_prefix(c, sizes, width, (n - 1) as nat);
        let q = word_step(p, sizes[p.placed.len() as int], width, n == 1);
        if sizes_kept(c, sizes) {
            assert forall|k: int| 0 <= k < q.placed.len() implies (#[trigger] q.placed[k]).width == sizes[k].width
                && q.placed[k].height == sizes[k].height by {
                if k < p.placed.len() {
                    assert(q.placed[k] == p.placed[k]);
                }
            }
        }
        assert forall|k: int| 0 <= k < c.placed.len() implies #[trigger] q.placed[k] == c.placed[k] by {
            assert(q.placed[k] == p.placed[k]);
        }
    }
}

proof fn lemma_run_step_facts(c: Cursor, n: NodeView, sizes: Seq<Measure>, width: int)
    ensures
        sizes_kept(c, sizes) ==> sizes_kept(run_step(c, n, sizes, width), sizes),
        extends(c.placed, run_step(c, n, sizes, width).placed),
        run_step(c, n, sizes, width).placed.len() > c.placed.len(),
        y_in_range(c) ==> on_last_line(run_step(c, n, sizes, width)),
        y_in_range(c) ==> y_in_range(run_step(c, n, sizes, width)),
{
    let c1 = Cursor { x: sat(c.x + sat(8 * leading_ws(n.text) as int)), ..c };
    lemma_words_prefix_facts(c1, sizes, width, words_of(n.text).len());
    lemma_words_prefix_len(c1, sizes, width, words_of(n.text).len());
}

proof fn lemma_runs_prefix_facts(c: Cursor, nodes: Seq<NodeView>, sizes: Seq<Measure>, width: int, j: nat)
    requires
        j <= nodes.len(),
    ensures
        sizes_kept(c, sizes) ==> sizes_kept(runs_prefix(c, nodes, sizes, width, j), sizes),
        extends(c.placed, runs_prefix(c, nodes, sizes, width, j).placed),
        j > 0 && y_in_range(c) ==> on_last_line(runs_prefix(c, nodes, sizes, width, j)),
        y_in_range(c) ==> y_in_range(runs_prefix(c, nodes, sizes, width, j)),
        j > 0 ==> extends(runs_prefix(c, nodes, sizes, width, 1).placed, runs_prefix(c, nodes, sizes, width, j).placed),
    decreases j,
{
    if j > 0 {
        lemma_runs_prefix_facts(c, nodes, sizes, width, (j - 1) as nat);
        let p = runs_prefix(c, nodes, sizes, width, (j - 1) as nat);
        lemma_run_step_facts(p, nodes[j - 1], sizes, width);
        let q = runs_prefix(c, nodes, sizes, width, j);
        assert forall|k: int| 0 <= k < c.placed.len() implies #[trigger] q.placed[k] == c.placed[k] by {
            assert(q.placed[k] == p.placed[k]);
        }
        if j > 1 {
            let f = runs_prefix(c, nodes, sizes, width, 1);
            assert forall|k: int| 0 <= k < f.placed.len() implies #[trigger] q.placed[k] == f.placed[k] by {
                assert(q.placed[k] == p.placed[k]);
            }
        }
    }
}

proof fn lemma_paras_prefix_facts(doc: Seq<RootView>, sizes: Seq<Measure>, width: int, i: nat)
    requires
        i <= doc.len(),
    ensures
        sizes_kept(paras_prefix(doc, sizes, width, i), sizes),
        paras_prefix(doc, sizes, width, i).placed.len() == doc_words_prefix(doc, i),
    decreases i,
{
    if i > 0 {
        lemma_paras_prefix_facts(doc, sizes, width, (i - 1) as nat);
        let c = paras_prefix(doc, sizes, width, (i - 1) as nat);
        let p = doc[i - 1];
        let first = i == 1;
        let c1 = Cursor {
            y: sat(sat(c.y + prev_margin_of(doc, i - 1)) + p.margin_top),
            pending_break: p.new_line && !first,
            ..c
        };
        lemma_runs_prefix_facts(c1, p.nodes, sizes, width, p.nodes.len());
        lemma_para_step_len(c, p, prev_margin_of(doc, i - 1), first, sizes, width);
    }
}

/// Words are never split: each placed word has exactly the size measured for that word.
pub proof fn lemma_words_kept_whole(doc: Seq<RootView>, sizes: Seq<Measure>, width: int)
    ensures
        forall|k: int|
            0 <= k < layout_spec(doc, sizes, width).len() ==> (#[trigger] layout_spec(doc, sizes, width)[k]).width
                == sizes[k].width && layout_spec(doc, sizes, width)[k].height == sizes[k].height,
{
    lemma_paras_prefix_facts(doc, sizes, width, doc.len());
}

/// One placed word for each word of the document: none is dropped or duplicated.
pub proof fn lemma_one_placement_per_word(doc: Seq<RootView>, sizes: Seq<Measure>, width: int)
    ensures
        layout_spec(doc, sizes, width).len() == doc_words(doc),
{
    lemma_paras_prefix_facts(doc, sizes, width, doc.len());
}

/// The number of runs in the first `i` blocks.
pub open spec fn runs_count_prefix(doc: Seq<RootView>, i: nat) -> nat
    decreases i,
{
    if i == 0 || i > doc.len() {
        0
    } else {
        runs_count_prefix(doc, (i - 1) as nat) + doc[i - 1].nodes.len()
    }
}

/// Every run of the document holds exactly one word.
pub open spec fn single_word_runs(doc: Seq<RootView>) -> bool {
    forall|i: int, j: int| 0 <= i < doc.len() && 0 <= j < doc[i].nodes.len() ==> run_words(#[trigger] doc[i].nodes[j]) == 1
}

proof fn lemma_nodes_words_single(nodes: Seq<NodeView>, j: nat)
    requires
        j <= nodes.len(),
        forall|k: int| 0 <= k < nodes.len() ==> run_words(#[trigger] nodes[k]) == 1,
    ensures
        nodes_words(nodes, j) == j,
    decreases j,
{
    if j > 0 {
        lemma_nodes_words_single(nodes, (j - 1) as nat);
    }
}

proof fn lemma_doc_words_single(doc: Seq<RootView>, i: nat)
    requires
        i <= doc.len(),
        single_word_runs(doc),
    ensures
        doc_words_prefix(doc, i) == runs_count_prefix(doc, i),
    decreases i,
{
    if i > 0 {
        lemma_doc_words_single(doc, (i - 1) as nat);
        let nodes = doc[i - 1].nodes;
        assert forall|k: int| 0 <= k < nodes.len() implies run_words(#[trigger] nodes[k]) == 1 by {
            assert(nodes[k] == doc[i - 1].nodes[k]);
        }
        lemma_nodes_words_single(nodes, nodes.len());
    }
}

/// Where every run is a single word, there is exactly one placed word per run.
pub proof fn lemma_one_placement_per_run(doc: Seq<RootView>, sizes: Seq<Measure>, width: int)
    requires
        single_word_runs(doc),
    ensures
        layout_spec(doc, sizes, width).len() == runs_count_prefix(doc, doc.len()),
{
    lemma_one_placement_per_word(doc, sizes, width);
    lemma_doc_words_single(doc, doc.len());
}

/// The layout is a function of the document, the measurements and the width: two layouts
/// of the same input place every word at the same coordinates.
pub proof fn lemma_layout_repeatable(doc: Seq<RootView>, sizes: Seq<Measure>, width: int, a: Seq<PlacedRun>, b: Seq<PlacedRun>)
    requires
        a == layout_spec(doc, sizes, width),
        b == layout_spec(doc, sizes, width),
    ensures
        a == b,
{
}

proof fn lemma_block_gap_prefix(doc: Seq<RootView>, sizes: Seq<Measure>, width: int, i: nat)
    requires
        1 <= i < doc.len(),
        doc[i - 1].nodes.len() > 0,
        doc[i as int].nodes.len() > 0,
        doc[i as int].new_line,
    ensures
        ({
            let before = paras_prefix(doc, sizes, width, i).placed;
            let after = paras_prefix(doc, sizes, width, i + 1).placed;
            let last = before.last();
            &&& before.len() > 0
            &&& after.len() > before.len()
            &&& after[before.len() as int].x == 0
            &&& after[before.len() as int].y == sat(
                sat(sat(last.y + doc[i - 1].margin_bottom) + doc[i as int].margin_top) + last.height,
            )
        }),
{
    let prev = paras_prefix(doc, sizes, width, (i - 1) as nat);
    let p0 = doc[i - 1];
    let c0 = Cursor {
        y: sat(sat(prev.y + prev_margin_of(doc, i - 1)) + p0.margin_top),
        pending_break: p0.new_line && !(i == 1),
        ..prev
    };
    lemma_runs_prefix_facts(c0, p0.nodes, sizes, width, p0.nodes.len());
    lemma_run_step_facts(c0, p0.nodes[0], sizes, width);
    let c = paras_prefix(doc, sizes, width, i);
    let p = doc[i as int];
    let c1 = Cursor {
        y: sat(sat(c.y + prev_margin_of(doc, i as int)) + p.margin_top),
        pending_break: p.new_line && !(i + 1 == 1),
        ..c
    };
    let n0 = p.nodes[0];
    lemma_runs_prefix_facts(c1, p.nodes, sizes, width, p.nodes.len());
    lemma_run_step_facts(c1, n0, sizes, width);
    assert(runs_prefix(c1, p.nodes, sizes, width, 0) == c1);
    assert(runs_prefix(c1, p.nodes, sizes, width, 1) == run_step(c1, n0, sizes, width));
    let r1 = Cursor { x: sat(c1.x + sat(8 * leading_ws(n0.text) as int)), ..c1 };
    let nw = words_of(n0.text).len();
    lemma_words_prefix_facts(word_step(r1, sizes[r1.placed.len() as int], width, true), sizes, width, (nw - 1) as nat);
    lemma_words_first(r1, sizes, width, nw);
}

proof fn lemma_paras_prefix_extends(doc: Seq<RootView>, sizes: Seq<Measure>, width: int, i: nat, j: nat)
    requires
        i <= j <= doc.len(),
    ensures
        extends(paras_prefix(doc, sizes, width, i).placed, paras_prefix(doc, sizes, width, j).placed),
    decreases j,
{
    if i < j {
        lemma_paras_prefix_extends(doc, sizes, width, i, (j - 1) as nat);
        let c = paras_prefix(doc, sizes, width, (j - 1) as nat);
        let p = doc[j - 1];
        let c1 = Cursor {
            y: sat(sat(c.y + prev_margin_of(doc, j - 1)) + p.margin_top),
            pending_break: p.new_line && !(j == 1),
            ..c
        };
        lemma_runs_prefix_facts(c1, p.nodes, sizes, width, p.nodes.len());
        let a = paras_prefix(doc, sizes, width, i).placed;
        let q = paras_prefix(doc, sizes, width, j).placed;
        assert forall|k: int| 0 <= k < a.len() implies #[trigger] q[k] == a[k] by {
            assert(q[k] == c.placed[k]);
        }
    }
}

/// Between two blocks, where the second starts on a new line, in the layout of a whole
/// document: the first word of the second block starts its line at x 0, below the last word
/// of the first block by the first block's bottom margin, the second's top margin and the
/// height of that last word. Where these sums stay within `i64`, the gap is exactly that sum.
pub proof fn lemma_block_gap(doc: Seq<RootView>, sizes: Seq<Measure>, width: int, i: nat)
    requires
        1 <= i < doc.len(),
        doc[i - 1].nodes.len() > 0,
        doc[i as int].nodes.len() > 0,
        doc[i as int].new_line,
    ensures
        ({
            let placed = layout_spec(doc, sizes, width);
            let k = doc_words_prefix(doc, i) as int;
            let last = placed[k - 1];
            let mb = doc[i - 1].margin_bottom as int;
            let mt = doc[i as int].margin_top as int;
            &&& 1 <= k < placed.len()
            &&& placed[k].x == 0
            &&& placed[k].y == sat(sat(sat(last.y + mb) + mt) + last.height)
            &&& (i64::MIN <= last.y + mb <= i64::MAX && i64::MIN <= last.y + mb + mt <= i64::MAX
                && i64::MIN <= last.y + mb + mt + last.height <= i64::MAX)
                ==> placed[k].y == last.y + mb + mt + last.height
        }),
{
    lemma_block_gap_prefix(doc, sizes, width, i);
    lemma_paras_prefix_facts(doc, sizes, width, i);
    lemma_paras_prefix_extends(doc, sizes, width, i, (i + 1) as nat);
    lemma_paras_prefix_extends(doc, sizes, width, (i + 1) as nat, doc.len());
    let before = paras_prefix(doc, sizes, width, i).placed;
    let after = paras_prefix(doc, sizes, width, i + 1).placed;
    let placed = layout_spec(doc, sizes, width);
    assert(placed[before.len() - 1] == after[before.len() - 1]);
    assert(after[before.len() - 1] == before[before.len() - 1]);
    assert(placed[before.len() as int] == after[before.len() as int]);
}

proof fn lemma_words_first(c: Cursor, sizes: Seq<Measure>, width: int, n: nat)
    requires
        n >= 1,
    ensures
        extends(word_step(c, sizes[c.placed.len() as int], width, true).placed, words_prefix(c, sizes, width, n).placed),
    decreases n,
{
    if n > 1 {
        lemma_words_first(c, sizes, width, (n - 1) as nat);
        let p = words_prefix(c, sizes, width, (n - 1) as nat);
        let q = words_prefix(c, sizes, width, n);
        let f = word_step(c, sizes[c.placed.len() as int], width, true);
        assert forall|k: int| 0 <= k < f.placed.len() implies #[trigger] q.placed[k] == f.placed[k] by {
            assert(q.placed[k] == p.placed[k]);
        }
    } else {
        assert(words_prefix(c, sizes, width, 0) == c);
    }
}

} // verus!
