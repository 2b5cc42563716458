//! Mermaid diagrams: which code blocks are diagrams, and which pictures stay.

use agentium::mermaid::{
    extract_mermaid_diagrams, mermaid_dark_theme, mermaid_palette, parse_mermaid_info,
    CachedMermaidDiagram, DiagramLook, FencedCodeBlock, MarkdownEvent, MermaidCacheKey, MermaidDiagramCache,
    MermaidDiagrams, MermaidState, ParsedMarkdownMermaidDiagramContents, RenderState,
};

fn mermaid_contents(contents: &str) -> ParsedMarkdownMermaidDiagramContents {
    ParsedMarkdownMermaidDiagramContents {
        contents: contents.to_string(),
        scale: 100,
    }
}

fn light_key(contents: &str) -> MermaidCacheKey {
    MermaidCacheKey {
        contents: mermaid_contents(contents),
        is_light: true,
    }
}

fn mermaid_sequence(diagrams: &[&str]) -> Vec<MermaidCacheKey> {
    diagrams.iter().map(|diagram| light_key(diagram)).collect()
}

fn drawn(image: u64) -> CachedMermaidDiagram {
    CachedMermaidDiagram {
        render_image: RenderState::Image(image),
        fallback_image: None,
    }
}

fn mermaid_fallback(
    new_diagram: &str,
    new_full_order: &[MermaidCacheKey],
    old_full_order: &[MermaidCacheKey],
    cache: &MermaidDiagramCache,
) -> Option<u64> {
    let new_key = light_key(new_diagram);
    let idx = new_full_order.iter().position(|key| key == &new_key)?;
    MermaidState::get_fallback_image(idx, old_full_order, new_full_order.len(), cache)
}

#[test]
fn test_parse_mermaid_info() {
    assert_eq!(parse_mermaid_info("mermaid"), Some(100));
    assert_eq!(parse_mermaid_info("mermaid 150"), Some(150));
    assert_eq!(parse_mermaid_info("mermaid 5"), Some(10));
    assert_eq!(parse_mermaid_info("mermaid 999"), Some(500));
    assert_eq!(parse_mermaid_info("rust"), None);
}

#[test]
fn info_with_other_blanks_and_words() {
    assert_eq!(parse_mermaid_info(" \tmermaid\u{3000}+42 more"), Some(42));
    assert_eq!(parse_mermaid_info("mermaid large"), Some(100));
    assert_eq!(parse_mermaid_info("mermaid 4294967296"), Some(100));
    assert_eq!(parse_mermaid_info("mermaid150"), None);
    assert_eq!(parse_mermaid_info(""), None);
}

fn code_block(source: &str, fence: &str) -> MarkdownEvent {
    let source_start = source.find(fence).unwrap();
    let line_end = source_start + source[source_start..].find('\n').unwrap();
    let content_end = line_end + 1 + source[line_end + 1..].find("```").unwrap();
    MarkdownEvent {
        source_start,
        code_block: Some(FencedCodeBlock {
            info: source[source_start + 3..line_end].to_string(),
            content_start: line_end + 1,
            content_end,
        }),
    }
}

#[test]
fn test_extract_mermaid_diagrams_parses_scale() {
    let markdown = "```mermaid 150\ngraph TD;\n```\n\n```rust\nfn main() {}\n```";
    let events = vec![
        code_block(markdown, "```mermaid"),
        code_block(markdown, "```rust"),
    ];
    let diagrams = extract_mermaid_diagrams(markdown, &events);

    assert_eq!(diagrams.len(), 1);
    let (_, diagram) = &diagrams[0];
    assert_eq!(diagram.contents.contents, "graph TD;");
    assert_eq!(diagram.contents.scale, 150);
}

#[test]
fn diagrams_stand_in_the_order_in_which_they_begin() {
    let markdown = "```mermaid\nグラフ\n```\n\n```mermaid 50\nb\n\n```\n";
    let events = vec![
        code_block(markdown, "```mermaid 50"),
        MarkdownEvent {
            source_start: 3,
            code_block: None,
        },
        code_block(markdown, "```mermaid"),
    ];
    let diagrams = extract_mermaid_diagrams(markdown, &events);
    let found: Vec<_> = diagrams
        .iter()
        .map(|(start, diagram)| (*start, diagram.contents.contents.as_str()))
        .collect();
    assert_eq!(found, vec![(0, "グラフ"), (26, "b\n")]);
}

#[test]
fn test_mermaid_fallback_on_edit() {
    let old_full_order = mermaid_sequence(&["graph A", "graph B", "graph C"]);
    let new_full_order = mermaid_sequence(&["graph A", "graph B modified", "graph C"]);

    let svg_b = 2;

    let mut cache = MermaidDiagramCache::new();
    cache.insert(light_key("graph A"), drawn(1));
    cache.insert(light_key("graph B"), drawn(svg_b));
    cache.insert(light_key("graph C"), drawn(3));

    let fallback = mermaid_fallback("graph B modified", &new_full_order, &old_full_order, &cache);

    assert_eq!(fallback, Some(svg_b));
}

#[test]
fn test_mermaid_no_fallback_on_add_in_middle() {
    let old_full_order = mermaid_sequence(&["graph A", "graph C"]);
    let new_full_order = mermaid_sequence(&["graph A", "graph NEW", "graph C"]);

    let mut cache = MermaidDiagramCache::new();
    cache.insert(light_key("graph A"), drawn(1));
    cache.insert(light_key("graph C"), drawn(3));

    let fallback = mermaid_fallback("graph NEW", &new_full_order, &old_full_order, &cache);

    assert!(fallback.is_none());
}

#[test]
fn test_mermaid_fallback_chains_on_rapid_edits() {
    let old_full_order = mermaid_sequence(&["graph A", "graph B modified", "graph C"]);
    let new_full_order = mermaid_sequence(&["graph A", "graph B modified again", "graph C"]);

    let original_svg = 2;

    let mut cache = MermaidDiagramCache::new();
    cache.insert(light_key("graph A"), drawn(1));
    cache.insert(
        light_key("graph B modified"),
        CachedMermaidDiagram {
            render_image: RenderState::Pending,
            fallback_image: Some(original_svg),
        },
    );
    cache.insert(light_key("graph C"), drawn(3));

    let fallback = mermaid_fallback(
        "graph B modified again",
        &new_full_order,
        &old_full_order,
        &cache,
    );

    assert_eq!(fallback, Some(original_svg));
}

#[test]
fn test_mermaid_fallback_with_duplicate_blocks_edit_second() {
    let old_full_order = mermaid_sequence(&["graph A", "graph A", "graph B"]);
    let new_full_order = mermaid_sequence(&["graph A", "graph A edited", "graph B"]);

    let svg_a = 1;

    let mut cache = MermaidDiagramCache::new();
    cache.insert(light_key("graph A"), drawn(svg_a));
    cache.insert(light_key("graph B"), drawn(2));

    let fallback = mermaid_fallback("graph A edited", &new_full_order, &old_full_order, &cache);

    assert_eq!(fallback, Some(svg_a));
}

fn diagrams_of(markdown: &str) -> MermaidDiagrams {
    extract_mermaid_diagrams(markdown, &vec![code_block(markdown, "```mermaid")])
}

#[test]
fn test_mermaid_update_rekeys_on_appearance_change() {
    let diagrams = diagrams_of("```mermaid\ngraph TD;\n```");
    let mut state = MermaidState::new();
    assert_eq!(state.update(&diagrams, true).len(), 1);
    assert!(state.is_light);
    assert_eq!(state.order.len(), 1);
    assert!(
        state.order.iter().all(|key| key.is_light),
        "cache should be populated with light-appearance keys",
    );

    assert_eq!(state.update(&diagrams, false).len(), 1);
    assert!(!state.is_light);
    assert_eq!(state.order.len(), 1);
    assert!(
        state.order.iter().all(|key| !key.is_light),
        "observer should have re-keyed the cache to dark-appearance",
    );
    for key in &state.order {
        assert!(
            state.cache.contains_key(key),
            "dark-appearance keys must be present in the cache",
        );
        let light_twin = MermaidCacheKey {
            contents: key.contents.clone(),
            is_light: true,
        };
        assert!(
            !state.cache.contains_key(&light_twin),
            "stale light-appearance entries must have been evicted",
        );
    }
}

#[test]
fn pictures_come_and_stay() {
    let diagrams = diagrams_of("```mermaid\ngraph TD;\n```");
    let edited = diagrams_of("```mermaid\ngraph LR;\n```");
    let mut state = MermaidState::new();
    let draw = state.update(&diagrams, true);
    assert_eq!(state.render_mermaid_diagram(&diagrams[0].1), DiagramLook::Loading);
    state.diagram_rendered(&draw[0], Some(7));
    state.diagram_rendered(&draw[0], None);
    assert_eq!(state.render_mermaid_diagram(&diagrams[0].1), DiagramLook::Image(7));
    assert!(state.update(&diagrams, true).is_empty());
    assert_eq!(state.render_mermaid_diagram(&diagrams[0].1), DiagramLook::Image(7));
    let draw = state.update(&edited, true);
    assert_eq!(state.render_mermaid_diagram(&edited[0].1), DiagramLook::Fallback(7));
    state.diagram_rendered(&draw[0], None);
    assert_eq!(
        state.render_mermaid_diagram(&edited[0].1),
        DiagramLook::Source("graph LR;".to_string())
    );
    state.clear();
    assert!(state.order.is_empty());
}

#[test]
fn dark_colours() {
    assert!(mermaid_palette(true).is_none());
    assert_eq!(mermaid_palette(false).unwrap().line_color, "#9ca3af");
    let palette = mermaid_dark_theme();
    assert_eq!(palette.background, "#2f343e");
    assert_eq!(palette.pie_outer_stroke_color, "#464b57");
}
