//! Inherited presentation attributes and the stack that scopes them.
use vstd::prelude::*;

verus! {

/// The style of a text fragment. An absent field means "inherit or default".
#[derive(Copy, Clone, Debug, PartialEq, Eq, Structural)]
pub struct Properties {
    pub font_size: Option<u32>,
    pub strong: Option<bool>,
    pub italic: Option<bool>,
}

/// The style with every field absent.
pub open spec fn default_properties() -> Properties {
    Properties { font_size: None, strong: None, italic: None }
}

/// The style that a header of the given level starts from.
pub open spec fn header_properties(level: i32) -> Properties {
    if level == 1 {
        Properties { font_size: Some(40), strong: Some(true), italic: None }
    } else if level == 2 {
        Properties { font_size: Some(33), strong: None, italic: None }
    } else {
        Properties { font_size: Some(25), strong: None, italic: None }
    }
}

/// The top and bottom margin of a header of the given level.
pub open spec fn header_margin(level: i32) -> i32 {
    if level == 1 {
        30
    } else if level == 2 {
        20
    } else {
        15
    }
}

/// The style in force for a stack of styles: its top, or the default when empty.
pub open spec fn current_of(stack: Seq<Properties>) -> Properties {
    if stack.len() == 0 {
        default_properties()
    } else {
        stack.last()
    }
}

/// A stack after a pop: the last entry removed, or unchanged when empty.
pub open spec fn popped(stack: Seq<Properties>) -> Seq<Properties> {
    if stack.len() == 0 {
        stack
    } else {
        stack.drop_last()
    }
}

/// A copy of a style with the bold flag set.
pub open spec fn emboldened(p: Properties) -> Properties {
    Properties { strong: Some(true), ..p }
}

impl Properties {
    pub fn new() -> (r: Properties)
        ensures
            r == default_properties(),
    {
        Properties { font_size: None, strong: None, italic: None }
    }

    /// The style that a header of `level` starts from: sizes 40 (bold), 33 and 25.
    pub fn for_header(level: i32) -> (r: Properties)
        ensures
            r == header_properties(level),
    {
        let mut p = Properties::new();
        if level == 1 {
            p.strong = Some(true);
            p.font_size = Some(40);
        } else if level == 2 {
            p.font_size = Some(33);
        } else {
            p.font_size = Some(25);
        }
        p
    }
}

/// The top and bottom margin of a header of `level`: 30, 20 or 15.
pub fn margin_for_header(level: i32) -> (r: i32)
    ensures
        r == header_margin(level),
{
    if level == 1 {
        30
    } else if level == 2 {
        20
    } else {
        15
    }
}

/// A stack of styles; each entry belongs to one open structural element.
pub struct StyleStack {
    pub entries: Vec<Properties>,
}

impl View for StyleStack {
    type V = Seq<Properties>;

    open spec fn view(&self) -> Seq<Properties> {
        self.entries@
    }
}

impl StyleStack {
    pub fn new() -> (r: StyleStack)
        ensures
            r@ == Seq::<Properties>::empty(),
    {
        StyleStack { entries: Vec::new() }
    }

    /// The style in force: the top entry, or the default style when empty.
    pub fn current(&self) -> (r: Properties)
        ensures
            r == current_of(self@),
    {
        let n = self.entries.len();
        if n == 0 {
            Properties::new()
        } else {
            self.entries[n - 1]
        }
    }

    pub fn push(&mut self, p: Properties)
        ensures
            final(self)@ == old(self)@.push(p),
    {
        self.entries.push(p);
    }

    /// Pushes a copy of the current style with bold set.
    pub fn push_bold(&mut self)
        ensures
            final(self)@ == old(self)@.push(emboldened(current_of(old(self)@))),
    {
        let mut p = self.current();
        p.strong = Some(true);
        self.entries.push(p);
    }

    /// Removes the top entry; on an empty stack nothing happens.
    pub fn pop(&mut self)
        ensures
            final(self)@ == popped(old(self)@),
    {
        let _ = self.entries.pop();
    }

    pub fn len(&self) -> (r: usize)
        ensures
            r == self@.len(),
    {
        self.entries.len()
    }
}

} // verus!
