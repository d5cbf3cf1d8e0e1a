//! The markdown preview's block builder: it turns the parser's event
//! stream into headings, paragraphs, code blocks, list items and rules.

use vstd::prelude::*;

use crate::text::{chars_of, decimal_chars, decimal_spec, push_chars, string_from_chars};
use pulldown_cmark::{Event, Parser, Tag, TagEnd};

verus! {

/// A markdown parser event, as far as the preview reads it.
#[derive(Debug)]
pub enum MdEvent {
    /// Start of a heading of level 1 to 6.
    StartHeading(u8),
    EndHeading(u8),
    StartParagraph,
    EndParagraph,
    StartCodeBlock,
    EndCodeBlock,
    StartBlockQuote,
    EndBlockQuote,
    /// Start of a list; ordered lists carry their first number.
    StartList(Option<u64>),
    EndList,
    StartItem,
    EndItem,
    Rule,
    Text(String),
    Code(String),
    SoftBreak,
    HardBreak,
    /// Any event the preview ignores.
    Other,
}

/// A parser event as plain values.
pub enum MdEventView {
    StartHeading(u8),
    EndHeading(u8),
    StartParagraph,
    EndParagraph,
    StartCodeBlock,
    EndCodeBlock,
    StartBlockQuote,
    EndBlockQuote,
    StartList(Option<u64>),
    EndList,
    StartItem,
    EndItem,
    Rule,
    Text(Seq<char>),
    Code(Seq<char>),
    SoftBreak,
    HardBreak,
    Other,
}

pub open spec fn md_event_view(e: MdEvent) -> MdEventView {
    match e {
        MdEvent::StartHeading(l) => MdEventView::StartHeading(l),
        MdEvent::EndHeading(l) => MdEventView::EndHeading(l),
        MdEvent::StartParagraph => MdEventView::StartParagraph,
        MdEvent::EndParagraph => MdEventView::EndParagraph,
        MdEvent::StartCodeBlock => MdEventView::StartCodeBlock,
        MdEvent::EndCodeBlock => MdEventView::EndCodeBlock,
        MdEvent::StartBlockQuote => MdEventView::StartBlockQuote,
        MdEvent::EndBlockQuote => MdEventView::EndBlockQuote,
        MdEvent::StartList(n) => MdEventView::StartList(n),
        MdEvent::EndList => MdEventView::EndList,
        MdEvent::StartItem => MdEventView::StartItem,
        MdEvent::EndItem => MdEventView::EndItem,
        MdEvent::Rule => MdEventView::Rule,
        MdEvent::Text(t) => MdEventView::Text(t@),
        MdEvent::Code(c) => MdEventView::Code(c@),
        MdEvent::SoftBreak => MdEventView::SoftBreak,
        MdEvent::HardBreak => MdEventView::HardBreak,
        MdEvent::Other => MdEventView::Other,
    }
}

pub open spec fn md_events_view(v: Seq<MdEvent>) -> Seq<MdEventView> {
    v.map_values(|e: MdEvent| md_event_view(e))
}

/// One block of the preview.
#[derive(Debug)]
pub enum Block {
    Heading { level: u8, text: String },
    Paragraph { text: String, quoted: bool },
    CodeBlock { text: String },
    ListItem { prefix: String, text: String },
    Rule,
}

/// A block as plain values.
pub enum BlockView {
    Heading(u8, Seq<char>),
    Paragraph(Seq<char>, bool),
    CodeBlock(Seq<char>),
    ListItem(Seq<char>, Seq<char>),
    Rule,
}

pub open spec fn block_view(b: Block) -> BlockView {
    match b {
        Block::Heading { level, text } => BlockView::Heading(level, text@),
        Block::Paragraph { text, quoted } => BlockView::Paragraph(text@, quoted),
        Block::CodeBlock { text } => BlockView::CodeBlock(text@),
        Block::ListItem { prefix, text } => BlockView::ListItem(prefix@, text@),
        Block::Rule => BlockView::Rule,
    }
}

pub open spec fn blocks_view(v: Seq<Block>) -> Seq<BlockView> {
    v.map_values(|b: Block| block_view(b))
}

/// The builder's state between events.
#[verifier::ext_equal]
pub struct BuildState {
    pub blocks: Seq<BlockView>,
    pub text: Seq<char>,
    pub in_code_block: bool,
    pub in_heading: Option<u8>,
    pub in_blockquote: bool,
    pub list_stack: Seq<Option<u64>>,
    pub item_index: int,
}

pub open spec fn initial_state() -> BuildState {
    BuildState {
        blocks: seq![],
        text: seq![],
        in_code_block: false,
        in_heading: None,
        in_blockquote: false,
        list_stack: seq![],
        item_index: 0,
    }
}

/// The marker of a list item: `N. ` in an ordered list (its first number
/// plus the item counter), else a bullet and a space.
pub open spec fn item_prefix(list_stack: Seq<Option<u64>>, item_index: int) -> Seq<char> {
    if list_stack.len() > 0 && list_stack.last() is Some {
        decimal_spec((list_stack.last().unwrap() + item_index) as nat) + seq!['.', ' ']
    } else {
        seq!['\u{2022}', ' ']
    }
}

/// One event applied to the builder.
pub open spec fn step(s: BuildState, ev: MdEventView) -> BuildState {
    match ev {
        MdEventView::StartHeading(l) => BuildState { in_heading: Some(l), text: seq![], ..s },
        MdEventView::EndHeading(l) => {
            let blocks = if s.text.len() > 0 {
                s.blocks.push(BlockView::Heading(l, s.text))
            } else {
                s.blocks
            };
            BuildState { blocks, text: seq![], in_heading: None, ..s }
        },
        MdEventView::StartParagraph => BuildState { text: seq![], ..s },
        MdEventView::EndParagraph => if s.in_heading is None && !s.in_code_block {
            if s.text.len() > 0 {
                BuildState { blocks: s.blocks.push(BlockView::Paragraph(s.text, s.in_blockquote)), text: seq![], ..s }
            } else {
                s
            }
        } else {
            s
        },
        MdEventView::StartCodeBlock => BuildState { in_code_block: true, text: seq![], ..s },
        MdEventView::EndCodeBlock => BuildState {
            blocks: s.blocks.push(BlockView::CodeBlock(s.text)),
            text: seq![],
            in_code_block: false,
            ..s
        },
        MdEventView::StartBlockQuote => BuildState { in_blockquote: true, ..s },
        MdEventView::EndBlockQuote => BuildState { in_blockquote: false, ..s },
        MdEventView::StartList(start) => BuildState { list_stack: s.list_stack.push(start), ..s },
        MdEventView::EndList => BuildState {
            list_stack: if s.list_stack.len() > 0 {
                s.list_stack.drop_last()
            } else {
                s.list_stack
            },
            ..s
        },
        MdEventView::StartItem => BuildState { item_index: 0, text: seq![], ..s },
        MdEventView::EndItem => {
            let flushed = if s.text.len() > 0 {
                BuildState {
                    blocks: s.blocks.push(BlockView::ListItem(item_prefix(s.list_stack, s.item_index), s.text)),
                    text: seq![],
                    ..s
                }
            } else {
                s
            };
            BuildState { item_index: flushed.item_index + 1, ..flushed }
        },
        MdEventView::Rule => BuildState { blocks: s.blocks.push(BlockView::Rule), ..s },
        MdEventView::Text(t) => BuildState { text: s.text + t, ..s },
        MdEventView::Code(c) => BuildState { text: s.text.push('`') + c.push('`'), ..s },
        MdEventView::SoftBreak => BuildState { text: s.text.push(' '), ..s },
        MdEventView::HardBreak => BuildState { text: s.text.push('\n'), ..s },
        MdEventView::Other => s,
    }
}

/// The builder after a sequence of events.
pub open spec fn run(events: Seq<MdEventView>) -> BuildState
    decreases events.len(),
{
    if events.len() == 0 {
        initial_state()
    } else {
        step(run(events.drop_last()), events.last())
    }
}

/// Ordered lists start at numbers of at most nine digits (as CommonMark
/// allows).
pub open spec fn starts_bounded(events: Seq<MdEventView>) -> bool {
    forall|i: int|
        0 <= i < events.len() ==> (#[trigger] events[i] matches MdEventView::StartList(Some(n)) ==> n <= 999_999_999)
}

struct Builder {
    blocks: Vec<Block>,
    text: Vec<char>,
    in_code_block: bool,
    in_heading: Option<u8>,
    in_blockquote: bool,
    list_stack: Vec<Option<u64>>,
    item_index: u64,
}

impl Builder {
    spec fn state(&self) -> BuildState {
        BuildState {
            blocks: blocks_view(self.blocks@),
            text: self.text@,
            in_code_block: self.in_code_block,
            in_heading: self.in_heading,
            in_blockquote: self.in_blockquote,
            list_stack: self.list_stack@,
            item_index: self.item_index as int,
        }
    }

    fn take_text(&mut self) -> (t: String)
        ensures
            t@ == old(self).text@,
            final(self).text@.len() == 0,
            final(self).blocks@ == old(self).blocks@,
            final(self).in_code_block == old(self).in_code_block,
            final(self).in_heading == old(self).in_heading,
            final(self).in_blockquote == old(self).in_blockquote,
            final(self).list_stack@ == old(self).list_stack@,
            final(self).item_index == old(self).item_index,
    {
        let t = string_from_chars(self.text.as_slice());
        self.text = Vec::new();
        t
    }

    fn push_block(&mut self, b: Block)
        ensures
            final(self).state() == (BuildState { blocks: old(self).state().blocks.push(block_view(b)), ..old(self).state() }),
    {
        let ghost before = self.state();
        self.blocks.push(b);
        assert(blocks_view(self.blocks@) =~= before.blocks.push(block_view(b)));
        assert(self.state() =~= (BuildState { blocks: before.blocks.push(block_view(b)), ..before }));
    }

    fn item_prefix_exec(&self) -> (p: String)
        ensures
            p@ == item_prefix(self.list_stack@, self.item_index as int),
    {
        let n = self.list_stack.len();
        if n > 0 {
            if let Some(start) = self.list_stack[n - 1] {
                let v: u128 = start as u128 + self.item_index as u128;
                let mut cs = decimal_chars_u128(v);
                cs.push('.');
                cs.push(' ');
                assert(cs@ =~= decimal_spec(v as nat) + seq!['.', ' ']);
                return string_from_chars(cs.as_slice());
            }
        }
        let mut cs: Vec<char> = Vec::new();
        cs.push('\u{2022}');
        cs.push(' ');
        assert(cs@ =~= seq!['\u{2022}', ' ']);
        string_from_chars(cs.as_slice())
    }

    fn apply(&mut self, ev: &MdEvent)
        requires
            old(self).item_index < u64::MAX,
            forall|k: int| 0 <= k < old(self).list_stack@.len() ==> (#[trigger] old(self).list_stack@[k] matches Some(n) ==> n <= 999_999_999),
            ev matches MdEvent::StartList(Some(n)) ==> n <= 999_999_999,
        ensures
            final(self).state() == step(old(self).state(), md_event_view(*ev)),
            final(self).item_index <= old(self).item_index + 1,
            forall|k: int| 0 <= k < final(self).list_stack@.len() ==> (#[trigger] final(self).list_stack@[k] matches Some(n) ==> n <= 999_999_999),
    {
        let ghost s = self.state();
        match ev {
            MdEvent::StartHeading(l) => {
                self.in_heading = Some(*l);
                self.text = Vec::new();
            },
            MdEvent::EndHeading(l) => {
                if self.text.len() > 0 {
                    let t = self.take_text();
                    self.push_block(Block::Heading { level: *l, text: t });
                }
                self.text = Vec::new();
                self.in_heading = None;
            },
            MdEvent::StartParagraph => {
                self.text = Vec::new();
            },
            MdEvent::EndParagraph => {
                if self.in_heading.is_none() && !self.in_code_block && self.text.len() > 0 {
                    let t = self.take_text();
                    let quoted = self.in_blockquote;
                    self.push_block(Block::Paragraph { text: t, quoted });
                }
            },
            MdEvent::StartCodeBlock => {
                self.in_code_block = true;
                self.text = Vec::new();
            },
            MdEvent::EndCodeBlock => {
                let t = self.take_text();
                self.push_block(Block::CodeBlock { text: t });
                self.in_code_block = false;
            },
            MdEvent::StartBlockQuote => {
                self.in_blockquote = true;
            },
            MdEvent::EndBlockQuote => {
                self.in_blockquote = false;
            },
            MdEvent::StartList(start) => {
                self.list_stack.push(*start);
            },
            MdEvent::EndList => {
                if self.list_stack.len() > 0 {
                    self.list_stack.pop();
                }
            },
            MdEvent::StartItem => {
                self.item_index = 0;
                self.text = Vec::new();
            },
            MdEvent::EndItem => {
                if self.text.len() > 0 {
                    let prefix = self.item_prefix_exec();
                    let t = self.take_text();
                    self.push_block(Block::ListItem { prefix, text: t });
                }
                self.item_index = self.item_index + 1;
            },
            MdEvent::Rule => {
                self.push_block(Block::Rule);
            },
            MdEvent::Text(t) => {
                let tc = chars_of(t.as_str());
                push_chars(&mut self.text, &tc);
            },
            MdEvent::Code(c) => {
                self.text.push('`');
                let cc = chars_of(c.as_str());
                push_chars(&mut self.text, &cc);
                self.text.push('`');
                assert(self.text@ =~= s.text.push('`') + c@.push('`'));
            },
            MdEvent::SoftBreak => {
                self.text.push(' ');
            },
            MdEvent::HardBreak => {
                self.text.push('\n');
            },
            MdEvent::Other => {},
        }
        assert(self.state() =~= step(s, md_event_view(*ev)));
    }
}

fn decimal_chars_u128(n: u128) -> (out: Vec<char>)
    ensures
        out@ == decimal_spec(n as nat),
    decreases n,
{
    if n < 10 {
        decimal_chars(n as usize)
    } else {
        let mut v = decimal_chars_u128(n / 10);
        let d = decimal_chars((n % 10) as usize);
        assert(d@ == decimal_spec((n % 10) as nat));
        assert(d@.len() == 1);
        v.push(d[0]);
        v
    }
}

/// Builds the preview's blocks from the parser's events: headings and
/// paragraphs (quoted inside a block quote) with text, every code block,
/// list items with their marker, and rules; inline code is wrapped in
/// backticks, a soft break is a space and a hard break a newline.
pub fn build_blocks(events: &Vec<MdEvent>) -> (blocks: Vec<Block>)
    requires
        starts_bounded(md_events_view(events@)),
    ensures
        blocks_view(blocks@) == run(md_events_view(events@)).blocks,
{
    let ghost evs = md_events_view(events@);
    let mut b = Builder {
        blocks: Vec::new(),
        text: Vec::new(),
        in_code_block: false,
        in_heading: None,
        in_blockquote: false,
        list_stack: Vec::new(),
        item_index: 0,
    };
    assert(blocks_view(b.blocks@) =~= seq![]);
    assert(b.state() =~= initial_state());
    assert(evs.take(0) =~= seq![]);
    let mut i: usize = 0;
    while i < events.len()
        invariant
            i <= events@.len(),
            evs == md_events_view(events@),
            starts_bounded(evs),
            b.item_index <= i,
            forall|k: int| 0 <= k < b.list_stack@.len() ==> (#[trigger] b.list_stack@[k] matches Some(n) ==> n <= 999_999_999),
            b.state() == run(evs.take(i as int)),
        decreases events@.len() - i,
    {
        assert(evs.take(i + 1).drop_last() =~= evs.take(i as int));
        assert(evs.take(i + 1).last() == md_event_view(events@[i as int]));
        assert(evs[i as int] matches MdEventView::StartList(Some(n)) ==> n <= 999_999_999);
        assert(events@[i as int] matches MdEvent::StartList(Some(n)) ==> n <= 999_999_999);
        b.apply(&events[i]);
        i = i + 1;
    }
    assert(evs.take(events@.len() as int) =~= evs);
    b.blocks
}


/// The events the preview is built from: ordered lists start at numbers
/// of at most nine digits, as CommonMark (and pulldown-cmark) allows.
pub open spec fn buildable(events: Seq<MdEventView>) -> bool {
    starts_bounded(events)
}

/// The preview's blocks for a stream of events, or `None` where the stream
/// is not `buildable`.
pub fn blocks_of_events(events: &Vec<MdEvent>) -> (out: Option<Vec<Block>>)
    ensures
        match out {
            Some(b) => buildable(md_events_view(events@)) && blocks_view(b@) == run(md_events_view(events@)).blocks,
            None => !buildable(md_events_view(events@)),
        },
{
    let ghost evs = md_events_view(events@);
    let mut i: usize = 0;
    while i < events.len()
        invariant
            i <= events@.len(),
            evs == md_events_view(events@),
            forall|k: int| 0 <= k < i ==> (#[trigger] evs[k] matches MdEventView::StartList(Some(n)) ==> n <= 999_999_999),
        decreases events@.len() - i,
    {
        if let MdEvent::StartList(Some(n)) = &events[i] {
            if *n > 999_999_999 {
                assert(evs[i as int] == MdEventView::StartList(Some(*n)));
                return None;
            }
        }
        i = i + 1;
    }
    Some(build_blocks(events))
}

/// The preview's reading of the events that pulldown-cmark's `Parser::new`
/// (CommonMark, no extensions) gives for a text: headings, paragraphs, code
/// blocks, block quotes, lists and items by their start and end, rules,
/// text, inline code and breaks; every other event is `Other`.
pub uninterp spec fn markdown_md_events(text: Seq<char>) -> Seq<MdEventView>;

/// Headings, paragraphs and code blocks, by start and end.
pub open spec fn is_block_event(v: MdEventView) -> bool {
    ||| v is StartHeading
    ||| v is EndHeading
    ||| v is StartParagraph
    ||| v is EndParagraph
    ||| v is StartCodeBlock
    ||| v is EndCodeBlock
}

/// Block quotes, lists and list items, by start and end.
pub open spec fn is_container_event(v: MdEventView) -> bool {
    ||| v is StartBlockQuote
    ||| v is EndBlockQuote
    ||| v is StartList
    ||| v is EndList
    ||| v is StartItem
    ||| v is EndItem
}

/// Rules, text, inline code and breaks.
pub open spec fn is_inline_event(v: MdEventView) -> bool {
    ||| v is Rule
    ||| v is Text
    ||| v is Code
    ||| v is SoftBreak
    ||| v is HardBreak
}

/// The events of one group as pulldown-cmark's parser gives them, position
/// by position: `Some` exactly at the events of that group.
pub open spec fn is_group_reading(r: Seq<Option<MdEvent>>, all: Seq<MdEventView>, group: spec_fn(MdEventView) -> bool) -> bool {
    &&& r.len() == all.len()
    &&& forall|i: int|
        0 <= i < r.len() ==> match #[trigger] r[i] {
            Some(m) => md_event_view(m) == all[i] && group(all[i]),
            None => !group(all[i]),
        }
}

/// pulldown-cmark's `Parser::new(text)`, run to the end; the heading,
/// paragraph and code block events, each at its position.
#[verifier::external_body]
fn parse_block_events(text: &str) -> (r: Vec<Option<MdEvent>>)
    ensures
        is_group_reading(r@, markdown_md_events(text@), |v: MdEventView| is_block_event(v)),
{
    let mut out = Vec::new();
    for e in Parser::new(text) {
        out.push(match e {
            Event::Start(Tag::Heading { level, .. }) => Some(MdEvent::StartHeading(level as u8)),
            Event::End(TagEnd::Heading(level)) => Some(MdEvent::EndHeading(level as u8)),
            Event::Start(Tag::Paragraph) => Some(MdEvent::StartParagraph),
            Event::End(TagEnd::Paragraph) => Some(MdEvent::EndParagraph),
            Event::Start(Tag::CodeBlock(_)) => Some(MdEvent::StartCodeBlock),
            Event::End(TagEnd::CodeBlock) => Some(MdEvent::EndCodeBlock),
            _ => None,
        });
    }
    out
}

/// pulldown-cmark's `Parser::new(text)`, run to the end; the block quote,
/// list and list item events, each at its position. The parser reads an
/// ordered list's start from at most nine digits.
#[verifier::external_body]
fn parse_container_events(text: &str) -> (r: Vec<Option<MdEvent>>)
    ensures
        is_group_reading(r@, markdown_md_events(text@), |v: MdEventView| is_container_event(v)),
        forall|i: int|
            0 <= i < r@.len() ==> (#[trigger] r@[i] matches Some(MdEvent::StartList(Some(n))) ==> n <= 999_999_999),
{
    let mut out = Vec::new();
    for e in Parser::new(text) {
        out.push(match e {
            Event::Start(Tag::BlockQuote(_)) => Some(MdEvent::StartBlockQuote),
            Event::End(TagEnd::BlockQuote(_)) => Some(MdEvent::EndBlockQuote),
            Event::Start(Tag::List(start)) => Some(MdEvent::StartList(start)),
            Event::End(TagEnd::List(_)) => Some(MdEvent::EndList),
            Event::Start(Tag::Item) => Some(MdEvent::StartItem),
            Event::End(TagEnd::Item) => Some(MdEvent::EndItem),
            _ => None,
        });
    }
    out
}

/// pulldown-cmark's `Parser::new(text)`, run to the end; the rule, text,
/// inline code and break events, each at its position.
#[verifier::external_body]
fn parse_inline_events(text: &str) -> (r: Vec<Option<MdEvent>>)
    ensures
        is_group_reading(r@, markdown_md_events(text@), |v: MdEventView| is_inline_event(v)),
{
    let mut out = Vec::new();
    for e in Parser::new(text) {
        out.push(match e {
            Event::Rule => Some(MdEvent::Rule),
            Event::Text(t) => Some(MdEvent::Text(t.into_string())),
            Event::Code(c) => Some(MdEvent::Code(c.into_string())),
            Event::SoftBreak => Some(MdEvent::SoftBreak),
            Event::HardBreak => Some(MdEvent::HardBreak),
            _ => None,
        });
    }
    out
}

fn md_event_copy(e: &MdEvent) -> (r: MdEvent)
    ensures
        md_event_view(r) == md_event_view(*e),
{
    match e {
        MdEvent::StartHeading(l) => MdEvent::StartHeading(*l),
        MdEvent::EndHeading(l) => MdEvent::EndHeading(*l),
        MdEvent::StartParagraph => MdEvent::StartParagraph,
        MdEvent::EndParagraph => MdEvent::EndParagraph,
        MdEvent::StartCodeBlock => MdEvent::StartCodeBlock,
        MdEvent::EndCodeBlock => MdEvent::EndCodeBlock,
        MdEvent::StartBlockQuote => MdEvent::StartBlockQuote,
        MdEvent::EndBlockQuote => MdEvent::EndBlockQuote,
        MdEvent::StartList(n) => MdEvent::StartList(*n),
        MdEvent::EndList => MdEvent::EndList,
        MdEvent::StartItem => MdEvent::StartItem,
        MdEvent::EndItem => MdEvent::EndItem,
        MdEvent::Rule => MdEvent::Rule,
        MdEvent::Text(t) => MdEvent::Text(t.as_str().to_owned()),
        MdEvent::Code(c) => MdEvent::Code(c.as_str().to_owned()),
        MdEvent::SoftBreak => MdEvent::SoftBreak,
        MdEvent::HardBreak => MdEvent::HardBreak,
        MdEvent::Other => MdEvent::Other,
    }
}

proof fn lemma_no_group_is_other(v: MdEventView)
    requires
        !is_block_event(v),
        !is_container_event(v),
        !is_inline_event(v),
    ensures
        v == MdEventView::Other,
{
}

/// Parses markdown (CommonMark) into the events the preview reads, one per
/// parser event, in the parser's order.
pub fn markdown_events(text: &str) -> (events: Vec<MdEvent>)
    ensures
        md_events_view(events@) == markdown_md_events(text@),
        starts_bounded(markdown_md_events(text@)),
{
    let ghost all = markdown_md_events(text@);
    let blocks = parse_block_events(text);
    let containers = parse_container_events(text);
    let inlines = parse_inline_events(text);
    let mut out: Vec<MdEvent> = Vec::new();
    let mut i: usize = 0;
    while i < blocks.len()
        invariant
            i <= blocks@.len(),
            is_group_reading(blocks@, all, |v: MdEventView| is_block_event(v)),
            is_group_reading(containers@, all, |v: MdEventView| is_container_event(v)),
            is_group_reading(inlines@, all, |v: MdEventView| is_inline_event(v)),
            md_events_view(out@) == all.take(i as int),
        decreases blocks@.len() - i,
    {
        let ghost a = all[i as int];
        assert(blocks@[i as int] is Some ==> md_event_view(blocks@[i as int]->0) == a);
        assert(blocks@[i as int] is None ==> !is_block_event(a));
        assert(containers@[i as int] is Some ==> md_event_view(containers@[i as int]->0) == a);
        assert(containers@[i as int] is None ==> !is_container_event(a));
        assert(inlines@[i as int] is Some ==> md_event_view(inlines@[i as int]->0) == a);
        assert(inlines@[i as int] is None ==> !is_inline_event(a));
        let m = match &blocks[i] {
            Some(m) => md_event_copy(m),
            None => match &containers[i] {
                Some(m) => md_event_copy(m),
                None => match &inlines[i] {
                    Some(m) => md_event_copy(m),
                    None => {
                        proof {
                            lemma_no_group_is_other(a);
                        }
                        MdEvent::Other
                    },
                },
            },
        };
        assert(md_event_view(m) == a);
        let ghost before = out@;
        out.push(m);
        assert(md_events_view(out@) =~= md_events_view(before).push(a));
        assert(all.take(i + 1) =~= all.take(i as int).push(a));
        i = i + 1;
    }
    assert(all.take(blocks@.len() as int) =~= all);
    assert forall|k: int| 0 <= k < all.len() implies (#[trigger] all[k] matches MdEventView::StartList(Some(n)) ==> n
        <= 999_999_999) by {
        if all[k] is StartList {
            assert(is_container_event(all[k]));
            assert(containers@[k] is Some);
        }
    }
    out
}

/// The preview of a markdown text: the parser's events, and the blocks
/// built from them.
pub fn markdown_blocks(text: &str) -> (out: (Vec<MdEvent>, Vec<Block>))
    ensures
        md_events_view(out.0@) == markdown_md_events(text@),
        blocks_view(out.1@) == run(markdown_md_events(text@)).blocks,
{
    let events = markdown_events(text);
    let blocks = build_blocks(&events);
    (events, blocks)
}

proof fn lemma_step_blocks(s: BuildState, ev: MdEventView)
    ensures
        step(s, ev).blocks == s.blocks || exists|b: BlockView| step(s, ev).blocks == s.blocks.push(b),
{
    match ev {
        MdEventView::EndHeading(l) => {
            if s.text.len() > 0 {
                assert(step(s, ev).blocks == s.blocks.push(BlockView::Heading(l, s.text)));
            }
        },
        MdEventView::EndParagraph => {
            if s.in_heading is None && !s.in_code_block && s.text.len() > 0 {
                assert(step(s, ev).blocks == s.blocks.push(BlockView::Paragraph(s.text, s.in_blockquote)));
            }
        },
        MdEventView::EndCodeBlock => {
            assert(step(s, ev).blocks == s.blocks.push(BlockView::CodeBlock(s.text)));
        },
        MdEventView::EndItem => {
            if s.text.len() > 0 {
                assert(step(s, ev).blocks == s.blocks.push(
                    BlockView::ListItem(item_prefix(s.list_stack, s.item_index), s.text),
                ));
            }
        },
        MdEventView::Rule => {
            assert(step(s, ev).blocks == s.blocks.push(BlockView::Rule));
        },
        _ => {},
    }
}

/// Every event adds at most one block, so a stream of `n` events gives at
/// most `n` blocks.
pub proof fn law_blocks_at_most_events(events: Seq<MdEventView>)
    ensures
        run(events).blocks.len() <= events.len(),
    decreases events.len(),
{
    if events.len() > 0 {
        law_blocks_at_most_events(events.drop_last());
        lemma_step_blocks(run(events.drop_last()), events.last());
    }
}

/// Blocks are only ever appended: the blocks built from the first `k`
/// events begin the blocks built from the whole stream.
pub proof fn law_blocks_grow_by_prefix(events: Seq<MdEventView>, k: int)
    requires
        0 <= k <= events.len(),
    ensures
        run(events.take(k)).blocks.is_prefix_of(run(events).blocks),
    decreases events.len(),
{
    if k == events.len() {
        assert(events.take(k) =~= events);
    } else {
        let init = events.drop_last();
        assert(events.take(k) =~= init.take(k));
        law_blocks_grow_by_prefix(init, k);
        lemma_step_blocks(run(init), events.last());
        let a = run(init.take(k)).blocks;
        let b = run(init).blocks;
        let c = run(events).blocks;
        assert(c.len() >= b.len());
        assert forall|i: int| 0 <= i < a.len() implies #[trigger] a[i] == c[i] by {
            assert(a[i] == b[i]);
        }
    }
}

/// Whether a block quote is open after `events`: the last block-quote
/// event among them starts one (a quote's end closes it).
pub open spec fn quote_open(events: Seq<MdEventView>) -> bool
    decreases events.len(),
{
    if events.len() == 0 {
        false
    } else {
        match events.last() {
            MdEventView::StartBlockQuote => true,
            MdEventView::EndBlockQuote => false,
            _ => quote_open(events.drop_last()),
        }
    }
}

proof fn lemma_quote_state(events: Seq<MdEventView>)
    ensures
        run(events).in_blockquote == quote_open(events),
    decreases events.len(),
{
    if events.len() > 0 {
        lemma_quote_state(events.drop_last());
    }
}

/// A paragraph is drawn as quoted exactly when a block quote is open at
/// its end: every paragraph block that an event adds is quoted if and
/// only if the last block-quote event before it starts a quote.
pub proof fn law_paragraph_quoted_inside_quote(events: Seq<MdEventView>, ev: MdEventView)
    ensures
        run(events.push(ev)).blocks.len() > run(events).blocks.len() ==> (
        run(events.push(ev)).blocks.last() matches BlockView::Paragraph(_t, q) ==> q == quote_open(events)),
{
    lemma_quote_state(events);
    let e2 = events.push(ev);
    assert(e2.drop_last() =~= events);
    assert(e2.last() == ev);
}

} // verus!
