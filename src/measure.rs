//! The words that the font service must measure before a layout, in document order.
use vstd::prelude::*;
use crate::document::{NodeView, RootNode, RootView, roots_view};
use crate::layout::{doc_words, doc_words_prefix, nodes_words};
use crate::style::Properties;
use crate::text::{words, words_of};

verus! {

/// A word with the font size and weight it is rendered in.
#[derive(Clone, Debug)]
pub struct WordRequest {
    pub text: String,
    pub font_size: u32,
    pub strong: bool,
}

/// The mathematical value of a `WordRequest`.
pub struct RequestView {
    pub text: Seq<char>,
    pub font_size: u32,
    pub strong: bool,
}

impl View for WordRequest {
    type V = RequestView;

    open spec fn view(&self) -> RequestView {
        RequestView { text: self.text@, font_size: self.font_size, strong: self.strong }
    }
}

/// The font size used when a style sets none.
pub const DEFAULT_FONT_SIZE: u32 = 20;

/// The font size of a style: its own, or the default.
pub open spec fn font_size_of(p: Properties) -> u32 {
    match p.font_size {
        Some(s) => s,
        None => DEFAULT_FONT_SIZE,
    }
}

/// A style is rendered bold exactly when its bold flag is set to true.
pub open spec fn is_bold(p: Properties) -> bool {
    p.strong == Some(true)
}

/// The requests for the words of one run.
pub open spec fn run_requests(n: NodeView) -> Seq<RequestView> {
    words_of(n.text).map_values(
        |w: Seq<char>| RequestView { text: w, font_size: font_size_of(n.properties), strong: is_bold(n.properties) },
    )
}

/// The requests for the first `j` runs.
pub open spec fn nodes_requests(nodes: Seq<NodeView>, j: nat) -> Seq<RequestView>
    decreases j,
{
    if j == 0 || j > nodes.len() {
        Seq::empty()
    } else {
        nodes_requests(nodes, (j - 1) as nat) + run_requests(nodes[j - 1])
    }
}

/// The requests for the first `i` blocks.
pub open spec fn doc_requests_prefix(doc: Seq<RootView>, i: nat) -> Seq<RequestView>
    decreases i,
{
    if i == 0 || i > doc.len() {
        Seq::empty()
    } else {
        doc_requests_prefix(doc, (i - 1) as nat) + nodes_requests(doc[i - 1].nodes, doc[i - 1].nodes.len())
    }
}

/// The requests for a whole document, one per word, in document order.
pub open spec fn doc_requests(doc: Seq<RootView>) -> Seq<RequestView> {
    doc_requests_prefix(doc, doc.len())
}

pub open spec fn requests_view(v: Seq<WordRequest>) -> Seq<RequestView> {
    v.map_values(|r: WordRequest| r@)
}

proof fn lemma_nodes_requests_len(nodes: Seq<NodeView>, j: nat)
    ensures
        nodes_requests(nodes, j).len() == nodes_words(nodes, j),
    decreases j,
{
    if j > 0 && j <= nodes.len() {
        lemma_nodes_requests_len(nodes, (j - 1) as nat);
    }
}

proof fn lemma_doc_requests_len(doc: Seq<RootView>, i: nat)
    ensures
        doc_requests_prefix(doc, i).len() == doc_words_prefix(doc, i),
    decreases i,
{
    if i > 0 && i <= doc.len() {
        lemma_doc_requests_len(doc, (i - 1) as nat);
        lemma_nodes_requests_len(doc[i - 1].nodes, doc[i - 1].nodes.len());
    }
}

/// The words of `doc` to be measured, in document order: one per word that the layout places.
pub fn word_requests(doc: &Vec<RootNode>) -> (r: Vec<WordRequest>)
    ensures
        requests_view(r@) == doc_requests(roots_view(doc@)),
        r@.len() == doc_words(roots_view(doc@)),
{
    let ghost d = roots_view(doc@);
    let mut out: Vec<WordRequest> = Vec::new();
    let n = doc.len();
    let mut i: usize = 0;
    while i < n
        invariant
            n == d.len(),
            d == roots_view(doc@),
            i <= n,
            requests_view(out@) == doc_requests_prefix(d, i as nat),
        decreases n - i,
    {
        let para = &doc[i];
        let ghost nodes = d[i as int].nodes;
        let ghost base = requests_view(out@);
        let m = para.nodes.len();
        let mut j: usize = 0;
        while j < m
            invariant
                nodes == para@.nodes,
                m == nodes.len(),
                j <= m,
                requests_view(out@) == base + nodes_requests(nodes, j as nat),
            decreases m - j,
        {
            let node = &para.nodes[j];
            let size = match node.properties.font_size {
                Some(s) => s,
                None => DEFAULT_FONT_SIZE,
            };
            let strong = match node.properties.strong {
                Some(true) => true,
                _ => false,
            };
            let ws = words(node.text.as_str());
            let ghost run = run_requests(node@);
            let ghost base2 = requests_view(out@);
            let mut k: usize = 0;
            while k < ws.len()
                invariant
                    run == run_requests(node@),
                    ws@.map_values(|w: String| w@) == words_of(node@.text),
                    k <= ws@.len(),
                    size == font_size_of(node.properties),
                    strong == is_bold(node.properties),
                    requests_view(out@) == base2 + run.take(k as int),
                decreases ws@.len() - k,
            {
                let ghost prev = requests_view(out@);
                let w = ws[k].clone();
                out.push(WordRequest { text: w, font_size: size, strong });
                assert(requests_view(out@) =~= prev.push(out@.last()@));
                assert(run.take(k + 1) =~= run.take(k as int).push(run[k as int]));
                assert(ws@.map_values(|w: String| w@)[k as int] == ws@[k as int]@);
                k += 1;
            }
            assert(run.take(ws@.len() as int) =~= run);
            assert(nodes[j as int] == node@);
            assert(base + nodes_requests(nodes, (j + 1) as nat) =~= base + nodes_requests(nodes, j as nat) + run);
            j += 1;
        }
        assert(d[i as int] == para@);
        i += 1;
    }
    proof {
        lemma_doc_requests_len(d, n as nat);
    }
    out
}

} // verus!
