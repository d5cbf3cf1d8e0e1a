use conescope::markdown::{blocks_of_events, build_blocks, markdown_blocks, markdown_events, Block, MdEvent};

/// A block as a short string, for comparisons.
fn show(b: &Block) -> String {
    match b {
        Block::Heading { level, text } => format!("h{level}:{text}"),
        Block::Paragraph { text, quoted } => format!("p{}:{text}", if *quoted { ">" } else { "" }),
        Block::CodeBlock { text } => format!("code:{text}"),
        Block::ListItem { prefix, text } => format!("li:{prefix}{text}"),
        Block::Rule => "hr".to_string(),
    }
}

fn shown(bs: &[Block]) -> Vec<String> {
    bs.iter().map(show).collect()
}

fn text(s: &str) -> MdEvent {
    MdEvent::Text(s.to_string())
}

#[test]
fn events_build_headings_paragraphs_and_code() {
    let evs = vec![
        MdEvent::StartHeading(2),
        text("Title"),
        MdEvent::EndHeading(2),
        MdEvent::StartParagraph,
        text("one"),
        MdEvent::SoftBreak,
        MdEvent::Code("x".to_string()),
        MdEvent::HardBreak,
        text("two"),
        MdEvent::EndParagraph,
        MdEvent::StartCodeBlock,
        text("fn main() {}\n"),
        MdEvent::EndCodeBlock,
        MdEvent::Rule,
        MdEvent::StartBlockQuote,
        MdEvent::StartParagraph,
        text("quoted"),
        MdEvent::EndParagraph,
        MdEvent::EndBlockQuote,
        MdEvent::Other,
    ];
    assert_eq!(
        shown(&build_blocks(&evs)),
        vec!["h2:Title", "p:one `x`\ntwo", "code:fn main() {}\n", "hr", "p>:quoted"]
    );
}

#[test]
fn empty_heading_and_paragraph_make_no_block() {
    let evs = vec![MdEvent::StartHeading(1), MdEvent::EndHeading(1), MdEvent::StartParagraph, MdEvent::EndParagraph];
    assert!(build_blocks(&evs).is_empty());
    // An empty code block still shows.
    let evs = vec![MdEvent::StartCodeBlock, MdEvent::EndCodeBlock];
    assert_eq!(shown(&build_blocks(&evs)), vec!["code:"]);
}

#[test]
fn list_items_are_numbered_or_bulleted() {
    let evs = vec![
        MdEvent::StartList(Some(3)),
        MdEvent::StartItem,
        text("a"),
        MdEvent::EndItem,
        MdEvent::StartItem,
        text("b"),
        MdEvent::EndItem,
        MdEvent::EndList,
        MdEvent::StartList(None),
        MdEvent::StartItem,
        text("c"),
        MdEvent::EndItem,
        MdEvent::EndList,
    ];
    // The counter restarts at each item start, as the builder does.
    assert_eq!(shown(&build_blocks(&evs)), vec!["li:3. a", "li:3. b", "li:\u{2022} c"]);
}

#[test]
fn unbuildable_streams_are_refused() {
    let evs = vec![MdEvent::StartList(Some(1_000_000_000)), MdEvent::StartItem, text("x"), MdEvent::EndItem];
    assert!(blocks_of_events(&evs).is_none());
    let evs = vec![MdEvent::StartList(Some(999_999_999)), MdEvent::StartItem, text("x"), MdEvent::EndItem];
    assert_eq!(shown(&blocks_of_events(&evs).unwrap()), vec!["li:999999999. x"]);
}

#[test]
fn markdown_text_is_parsed() {
    let src = "# Hello\n\nSome *text* and `code`.\n\n---\n\n1. first\n2. second\n\n- dot\n\n> quote\n\n```\nlet x = 1;\n```\n";
    let evs = markdown_events(src);
    assert!(evs.len() >= 10);
    let (evs2, blocks) = markdown_blocks(src);
    assert_eq!(evs2.len(), evs.len());
    assert_eq!(
        shown(&blocks),
        vec![
            "h1:Hello",
            "p:Some text and `code`.",
            "hr",
            "li:1. first",
            "li:1. second",
            "li:\u{2022} dot",
            "p>:quote",
            "code:let x = 1;\n",
        ]
    );
}

#[test]
fn blocks_never_outnumber_events() {
    let src = "a\n\nb\n\n***\n\n# c\n";
    let (evs, blocks) = markdown_blocks(src);
    assert!(blocks.len() <= evs.len());
    assert_eq!(shown(&blocks), vec!["p:a", "p:b", "hr", "h1:c"]);
}

#[test]
fn long_list_numbers_are_not_read_as_lists() {
    // Ten digits is not a list marker in CommonMark.
    let (_, blocks) = markdown_blocks("1234567890. x\n");
    assert_eq!(shown(&blocks), vec!["p:1234567890. x"]);
    let (_, blocks) = markdown_blocks("123456789. x\n");
    assert_eq!(shown(&blocks), vec!["li:123456789. x"]);
}
