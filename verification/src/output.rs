//! The ordered output document of one turn: titles, narrative text, events,
//! and at most one exits summary, which is kept as the final block.
use vstd::prelude::*;
use vstd::string::*;

use crate::text::{is_blank_str, spec_blank};

verus! {

/// One typed segment of a turn's narration.
#[derive(Debug)]
pub enum OutputBlock {
    Title(String),
    Text(String),
    Event(String),
    Exits(String),
}

/// The abstract value of an output block: the same tag over the text's view.
pub enum BlockV {
    Title(Seq<char>),
    Text(Seq<char>),
    Event(Seq<char>),
    Exits(Seq<char>),
}

impl View for OutputBlock {
    type V = BlockV;

    open spec fn view(&self) -> BlockV {
        match self {
            OutputBlock::Title(s) => BlockV::Title(s@),
            OutputBlock::Text(s) => BlockV::Text(s@),
            OutputBlock::Event(s) => BlockV::Event(s@),
            OutputBlock::Exits(s) => BlockV::Exits(s@),
        }
    }
}

/// Every block before the last one is a non-exits block; so there is at most
/// one exits block and it can only stand last.
pub open spec fn wf_output(v: Seq<BlockV>) -> bool {
    forall|i: int| 0 <= i < v.len() - 1 ==> !(#[trigger] v[i] is Exits)
}

/// Appends a block, keeping an existing exits block as the final element.
pub open spec fn spec_append_block(v: Seq<BlockV>, b: BlockV) -> Seq<BlockV> {
    if v.len() > 0 && v.last() is Exits {
        v.drop_last().push(b).push(v.last())
    } else {
        v.push(b)
    }
}

/// The document without its trailing exits block, if it has one.
pub open spec fn strip_exits(v: Seq<BlockV>) -> Seq<BlockV> {
    if v.len() > 0 && v.last() is Exits {
        v.drop_last()
    } else {
        v
    }
}

/// Blank text is dropped; other text is appended before any exits block.
pub open spec fn spec_say(v: Seq<BlockV>, s: Seq<char>) -> Seq<BlockV> {
    if spec_blank(s) {
        v
    } else {
        spec_append_block(v, BlockV::Text(s))
    }
}

pub open spec fn spec_title(v: Seq<BlockV>, s: Seq<char>) -> Seq<BlockV> {
    if spec_blank(s) {
        v
    } else {
        spec_append_block(v, BlockV::Title(s))
    }
}

pub open spec fn spec_event(v: Seq<BlockV>, s: Seq<char>) -> Seq<BlockV> {
    if spec_blank(s) {
        v
    } else {
        spec_append_block(v, BlockV::Event(s))
    }
}

/// Replaces any existing exits block, keeping exits as the final element.
pub open spec fn spec_set_exits(v: Seq<BlockV>, s: Seq<char>) -> Seq<BlockV> {
    if spec_blank(s) {
        v
    } else {
        strip_exits(v).push(BlockV::Exits(s))
    }
}

/// The output document of one turn.
#[derive(Debug)]
pub struct Output {
    pub blocks: Vec<OutputBlock>,
}

impl View for Output {
    type V = Seq<BlockV>;

    open spec fn view(&self) -> Seq<BlockV> {
        self.blocks@.map_values(|b: OutputBlock| b@)
    }
}

impl Output {
    pub open spec fn wf(&self) -> bool {
        wf_output(self@)
    }

    /// An empty output document.
    pub fn new() -> (r: Output)
        ensures
            r@ == Seq::<BlockV>::empty(),
            r.wf(),
    {
        let r = Output { blocks: Vec::new() };
        proof {
            assert(r@ =~= Seq::<BlockV>::empty());
        }
        r
    }

    /// Appends a block, keeping an existing exits block last.
    fn push_before_exits(&mut self, b: OutputBlock)
        requires
            old(self).wf(),
            !(b@ is Exits),
        ensures
            final(self).wf(),
            final(self)@ == spec_append_block(old(self)@, b@),
    {
        let n = self.blocks.len();
        let mut last_is_exits = false;
        if n > 0 {
            match &self.blocks[n - 1] {
                OutputBlock::Exits(_) => {
                    last_is_exits = true;
                },
                _ => {},
            }
        }
        if last_is_exits {
            self.blocks.insert(n - 1, b);
            proof {
                assert(self@ =~= old(self)@.drop_last().push(b@).push(old(self)@.last()));
            }
        } else {
            self.blocks.push(b);
            proof {
                assert(self@ =~= old(self)@.push(b@));
            }
        }
    }

    /// Adds a title block, unless the text is blank.
    pub fn title(&mut self, s: &str)
        requires
            old(self).wf(),
        ensures
            final(self).wf(),
            final(self)@ == spec_title(old(self)@, s@),
    {
        if !is_blank_str(s) {
            self.push_before_exits(OutputBlock::Title(String::from_str(s)));
        }
    }

    /// Adds a narrative text block, unless the text is blank.
    pub fn say(&mut self, s: &str)
        requires
            old(self).wf(),
        ensures
            final(self).wf(),
            final(self)@ == spec_say(old(self)@, s@),
    {
        if !is_blank_str(s) {
            self.push_before_exits(OutputBlock::Text(String::from_str(s)));
        }
    }

    /// Adds an event block, unless the text is blank.
    pub fn event(&mut self, s: &str)
        requires
            old(self).wf(),
        ensures
            final(self).wf(),
            final(self)@ == spec_event(old(self)@, s@),
    {
        if !is_blank_str(s) {
            self.push_before_exits(OutputBlock::Event(String::from_str(s)));
        }
    }

    /// Sets the exits summary, which always stands last, unless blank.
    pub fn set_exits(&mut self, s: &str)
        requires
            old(self).wf(),
        ensures
            final(self).wf(),
            final(self)@ == spec_set_exits(old(self)@, s@),
    {
        if is_blank_str(s) {
            return;
        }
        let n = self.blocks.len();
        let mut last_is_exits = false;
        if n > 0 {
            match &self.blocks[n - 1] {
                OutputBlock::Exits(_) => {
                    last_is_exits = true;
                },
                _ => {},
            }
        }
        if last_is_exits {
            self.blocks.pop();
        }
        self.blocks.push(OutputBlock::Exits(String::from_str(s)));
        proof {
            assert(self@ =~= strip_exits(old(self)@).push(BlockV::Exits(s@)));
        }
    }
}

} // verus!
