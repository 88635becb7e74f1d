//! The document model and the builder that assembles it from structural events.
use vstd::prelude::*;
use crate::style::{
    Properties, StyleStack, current_of, default_properties, emboldened, header_margin,
    header_properties, popped,
};

verus! {

/// A text fragment with its resolved style: the unit of placement.
#[derive(Clone, Debug)]
pub struct Node {
    pub text: String,
    pub properties: Properties,
}

/// The mathematical value of a `Node`.
pub struct NodeView {
    pub text: Seq<char>,
    pub properties: Properties,
}

impl View for Node {
    type V = NodeView;

    open spec fn view(&self) -> NodeView {
        NodeView { text: self.text@, properties: self.properties }
    }
}

impl Node {
    pub fn new(text: String, properties: Properties) -> (r: Node)
        ensures
            r@ == (NodeView { text: text@, properties }),
    {
        Node { text, properties }
    }
}

/// A block: its runs in reading order and its block-level attributes.
#[derive(Clone, Debug)]
pub struct RootNode {
    pub new_line: bool,
    pub margin_top: i32,
    pub margin_bottom: i32,
    pub nodes: Vec<Node>,
}

/// The mathematical value of a `RootNode`.
pub struct RootView {
    pub new_line: bool,
    pub margin_top: i32,
    pub margin_bottom: i32,
    pub nodes: Seq<NodeView>,
}

impl View for RootNode {
    type V = RootView;

    open spec fn view(&self) -> RootView {
        RootView {
            new_line: self.new_line,
            margin_top: self.margin_top,
            margin_bottom: self.margin_bottom,
            nodes: self.nodes@.map_values(|n: Node| n@),
        }
    }
}

/// A block with no runs, no new-line flag and no margins.
pub open spec fn empty_root() -> RootView {
    RootView { new_line: false, margin_top: 0, margin_bottom: 0, nodes: Seq::empty() }
}

impl RootNode {
    pub fn new() -> (r: RootNode)
        ensures
            r@ == empty_root(),
    {
        let r = RootNode { new_line: false, margin_top: 0, margin_bottom: 0, nodes: Vec::new() };
        assert(r@.nodes =~= Seq::<NodeView>::empty());
        r
    }
}

/// The kind of structural element that an event opens.
#[derive(Clone, Debug, PartialEq, Eq, Structural)]
pub enum Tag {
    Paragraph,
    Header(i32),
    Strong,
    Emphasis,
    /// Any other element: a transparent wrapper that keeps the current style.
    Other,
}

/// One structural event of a parsed document.
#[derive(Clone, Debug)]
pub enum Event {
    Start(Tag),
    Text(String),
    End,
    /// An event that carries neither structure nor text of interest here.
    Ignored,
}

/// The mathematical value of an `Event`: text as a sequence of characters.
pub enum EventView {
    Start(Tag),
    Text(Seq<char>),
    End,
    Ignored,
}

impl View for Event {
    type V = EventView;

    open spec fn view(&self) -> EventView {
        match self {
            Event::Start(t) => EventView::Start(*t),
            Event::Text(s) => EventView::Text(s@),
            Event::End => EventView::End,
            Event::Ignored => EventView::Ignored,
        }
    }
}

/// The state of the builder: open styles, the pending block and the finished blocks.
pub struct BuildState {
    pub stack: Seq<Properties>,
    pub pending: RootView,
    pub document: Seq<RootView>,
}

pub open spec fn initial_build_state() -> BuildState {
    BuildState { stack: Seq::empty(), pending: empty_root(), document: Seq::empty() }
}

/// How the builder reacts to one event.
pub open spec fn build_step(s: BuildState, e: EventView) -> BuildState {
    match e {
        EventView::Start(Tag::Paragraph) => BuildState {
            stack: s.stack.push(default_properties()),
            pending: RootView { new_line: true, margin_top: 5, margin_bottom: 10, ..s.pending },
            ..s
        },
        EventView::Start(Tag::Header(level)) => BuildState {
            stack: s.stack.push(header_properties(level)),
            pending: RootView {
                new_line: true,
                margin_top: header_margin(level),
                margin_bottom: header_margin(level),
                ..s.pending
            },
            ..s
        },
        EventView::Start(Tag::Strong) | EventView::Start(Tag::Emphasis) => BuildState {
            stack: s.stack.push(emboldened(current_of(s.stack))),
            ..s
        },
        EventView::Start(Tag::Other) => BuildState { stack: s.stack.push(current_of(s.stack)), ..s },
        EventView::Text(t) => BuildState {
            pending: RootView {
                nodes: s.pending.nodes.push(NodeView { text: t, properties: current_of(s.stack) }),
                ..s.pending
            },
            ..s
        },
        EventView::End => if popped(s.stack).len() == 0 {
            BuildState {
                stack: popped(s.stack),
                pending: empty_root(),
                document: if s.pending.nodes.len() > 0 {
                    s.document.push(s.pending)
                } else {
                    s.document
                },
            }
        } else {
            BuildState { stack: popped(s.stack), ..s }
        },
        _ => s,
    }
}

/// The builder's state after the first `n` events.
pub open spec fn build_prefix(events: Seq<EventView>, n: nat) -> BuildState
    decreases n,
{
    if n == 0 || n > events.len() {
        initial_build_state()
    } else {
        build_step(build_prefix(events, (n - 1) as nat), events[n - 1])
    }
}

/// The builder's state after all of `events`.
pub open spec fn build_state(events: Seq<EventView>) -> BuildState {
    build_prefix(events, events.len())
}

/// The blocks that a stream of events produces.
pub open spec fn build_spec(events: Seq<EventView>) -> Seq<RootView> {
    build_state(events).document
}

proof fn lemma_blocks_nonempty_prefix(events: Seq<EventView>, n: nat)
    ensures
        forall|k: int|
            0 <= k < build_prefix(events, n).document.len() ==> (#[trigger] build_prefix(events, n).document[k]).nodes.len() > 0,
    decreases n,
{
    if n > 0 && n <= events.len() {
        lemma_blocks_nonempty_prefix(events, (n - 1) as nat);
        let p = build_prefix(events, (n - 1) as nat);
        let q = build_prefix(events, n);
        assert(q == build_step(p, events[n - 1]));
        assert forall|k: int| 0 <= k < q.document.len() implies (#[trigger] q.document[k]).nodes.len() > 0 by {
            if k < p.document.len() {
                assert(q.document[k] == p.document[k]);
            }
        }
    }
}

/// No block without runs is ever produced: a block is sealed only once it holds a run.
pub proof fn lemma_no_empty_blocks(events: Seq<EventView>)
    ensures
        forall|k: int| 0 <= k < build_spec(events).len() ==> (#[trigger] build_spec(events)[k]).nodes.len() > 0,
{
    lemma_blocks_nonempty_prefix(events, events.len());
}

/// The views of a sequence of blocks.
pub open spec fn roots_view(v: Seq<RootNode>) -> Seq<RootView> {
    v.map_values(|r: RootNode| r@)
}

/// The views of a sequence of events.
pub open spec fn events_view(v: Seq<Event>) -> Seq<EventView> {
    v.map_values(|e: Event| e@)
}

/// Assembles blocks from structural events, with scoped style inheritance.
pub struct DocumentBuilder {
    pub styles: StyleStack,
    pub pending: RootNode,
    pub document: Vec<RootNode>,
}

impl DocumentBuilder {
    pub open spec fn state(&self) -> BuildState {
        BuildState {
            stack: self.styles@,
            pending: self.pending@,
            document: roots_view(self.document@),
        }
    }

    pub fn new() -> (r: DocumentBuilder)
        ensures
            r.state() == initial_build_state(),
    {
        let r = DocumentBuilder {
            styles: StyleStack::new(),
            pending: RootNode::new(),
            document: Vec::new(),
        };
        assert(roots_view(r.document@) =~= Seq::<RootView>::empty());
        r
    }

    /// Reacts to one event.
    pub fn handle(&mut self, e: &Event)
        ensures
            final(self).state() == build_step(old(self).state(), e@),
    {
        match e {
            Event::Start(Tag::Paragraph) => {
                self.pending.new_line = true;
                self.pending.margin_top = 5;
                self.pending.margin_bottom = 10;
                self.styles.push(Properties::new());
            },
            Event::Start(Tag::Header(level)) => {
                let margin = crate::style::margin_for_header(*level);
                self.pending.new_line = true;
                self.pending.margin_top = margin;
                self.pending.margin_bottom = margin;
                self.styles.push(Properties::for_header(*level));
            },
            Event::Start(Tag::Strong) | Event::Start(Tag::Emphasis) => {
                self.styles.push_bold();
            },
            Event::Start(Tag::Other) => {
                let p = self.styles.current();
                self.styles.push(p);
            },
            Event::Text(t) => {
                let p = self.styles.current();
                let node = Node::new(t.clone(), p);
                self.pending.nodes.push(node);
                assert(self.pending@.nodes =~= old(self).pending@.nodes.push(node@));
            },
            Event::End => {
                self.styles.pop();
                if self.styles.len() == 0 {
                    let mut done = RootNode::new();
                    core::mem::swap(&mut done, &mut self.pending);
                    if done.nodes.len() > 0 {
                        self.document.push(done);
                        assert(roots_view(self.document@) =~= roots_view(old(self).document@).push(done@));
                    }
                }
            },
            _ => {},
        }
    }

    /// The finished blocks.
    pub fn finish(self) -> (r: Vec<RootNode>)
        ensures
            roots_view(r@) == self.state().document,
    {
        self.document
    }
}

/// Builds the blocks of a document from its structural events.
pub fn build_document(events: &Vec<Event>) -> (r: Vec<RootNode>)
    ensures
        roots_view(r@) == build_spec(events_view(events@)),
{
    let mut b = DocumentBuilder::new();
    let n = events.len();
    let mut i: usize = 0;
    while i < n
        invariant
            n == events@.len(),
            i <= n,
            b.state() == build_prefix(events_view(events@), i as nat),
        decreases n - i,
    {
        b.handle(&events[i]);
        i += 1;
    }
    b.finish()
}

} // verus!
