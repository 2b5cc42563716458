//! Mermaid diagrams in Markdown: which code blocks are diagrams, and which
//! pictures of them are kept.

use vstd::prelude::*;
use vstd::slice::slice_subrange;
use vstd::utf8::{decode_utf8, encode_utf8, valid_utf8};

use crate::text::{
    chars_of, decimal, is_ascii_digit, is_text, lemma_decimal_value, lemma_run_end_is, number_in,
    parse_number, run_end, same_text, skip_run, text_of, CharClass,
};
use crate::urls::utf8_text;

verus! {

/// A diagram in a text: its source, and how large it is shown, in percent.
#[derive(Clone, Debug, PartialEq, Eq)]
pub struct ParsedMarkdownMermaidDiagramContents {
    pub contents: String,
    pub scale: u32,
}

/// A diagram in a text, and the bytes of the text that its source takes.
#[derive(Clone, Debug)]
pub struct ParsedMarkdownMermaidDiagram {
    pub content_start: usize,
    pub content_end: usize,
    pub contents: ParsedMarkdownMermaidDiagramContents,
}

/// What a picture is kept for: a diagram, and whether it is drawn for a light
/// background.
#[derive(Clone, Debug, PartialEq, Eq)]
pub struct MermaidCacheKey {
    pub contents: ParsedMarkdownMermaidDiagramContents,
    pub is_light: bool,
}

/// What a [`MermaidCacheKey`] stands for.
pub struct KeyModel {
    pub contents: Seq<char>,
    pub scale: u32,
    pub is_light: bool,
}

impl View for MermaidCacheKey {
    type V = KeyModel;

    open spec fn view(&self) -> KeyModel {
        KeyModel {
            contents: self.contents.contents@,
            scale: self.contents.scale,
            is_light: self.is_light,
        }
    }
}

/// Where the word that stands at an index is over.
pub open spec fn word_end(s: Seq<char>, from: int) -> int
    decreases s.len() - from,
{
    if from < 0 || from >= s.len() || CharClass::Whitespace.has(s[from]) {
        from
    } else {
        word_end(s, from + 1)
    }
}

fn skip_word(chars: &[char], from: usize) -> (end: usize)
    requires
        from <= chars@.len(),
    ensures
        end == word_end(chars@, from as int),
        from <= end <= chars@.len(),
{
    let length = chars.len();
    let mut end: usize = from;
    while end < length && !CharClass::Whitespace.contains(chars[end])
        invariant
            length == chars@.len(),
            from <= end <= length,
            word_end(chars@, from as int) == word_end(chars@, end as int),
        decreases length - end,
    {
        end += 1;
    }
    end
}

/// How large a diagram is shown for the word that says it: a hundred percent
/// where it says nothing, and between ten and five hundred.
pub open spec fn scale_in(word: Seq<char>) -> u32 {
    match parse_number(word) {
        Some(number) if number <= u32::MAX => if number < 10 {
            10
        } else if number > 500 {
            500
        } else {
            number as u32
        },
        _ => 100,
    }
}

/// How large a diagram is shown, where the first word of what stands above a
/// code block says that it is one.
pub open spec fn mermaid_scale(info: Seq<char>) -> Option<u32> {
    let first = run_end(info, 0, CharClass::Whitespace);
    let first_end = word_end(info, first);
    let second = run_end(info, first_end, CharClass::Whitespace);
    let second_end = word_end(info, second);
    if info.subrange(first, first_end) == "mermaid"@ {
        Some(scale_in(info.subrange(second, second_end)))
    } else {
        None
    }
}

pub fn parse_mermaid_info(info: &str) -> (scale: Option<u32>)
    ensures
        scale == mermaid_scale(info@),
{
    let chars = chars_of(info);
    let first = skip_run(chars.as_slice(), 0, CharClass::Whitespace);
    let first_end = skip_word(chars.as_slice(), first);
    let second = skip_run(chars.as_slice(), first_end, CharClass::Whitespace);
    let second_end = skip_word(chars.as_slice(), second);
    if !is_text(slice_subrange(chars.as_slice(), first, first_end), "mermaid") {
        return None;
    }
    let word = slice_subrange(chars.as_slice(), second, second_end);
    match number_in(word) {
        Some(number) => if number > 0xFFFF_FFFF {
            Some(100)
        } else if number < 10 {
            Some(10)
        } else if number > 500 {
            Some(500)
        } else {
            Some(number as u32)
        },
        None => Some(100),
    }
}

/// What is told of the beginning of an element of a text: the byte at which it
/// begins, and, of a fenced code block with a language, what stands above it and
/// the bytes that its contents take.
#[derive(Debug)]
pub struct MarkdownEvent {
    pub source_start: usize,
    pub code_block: Option<FencedCodeBlock>,
}

#[derive(Debug)]
pub struct FencedCodeBlock {
    pub info: String,
    pub content_start: usize,
    pub content_end: usize,
}

/// What a [`ParsedMarkdownMermaidDiagram`] stands for.
pub struct DiagramModel {
    pub content_start: usize,
    pub content_end: usize,
    pub contents: Seq<char>,
    pub scale: u32,
}

impl View for ParsedMarkdownMermaidDiagram {
    type V = DiagramModel;

    open spec fn view(&self) -> DiagramModel {
        DiagramModel {
            content_start: self.content_start,
            content_end: self.content_end,
            contents: self.contents.contents@,
            scale: self.contents.scale,
        }
    }
}

/// The bytes of a text between two places.
pub open spec fn bytes_between(source: Seq<char>, start: int, end: int) -> Seq<u8> {
    encode_utf8(source).subrange(start, end)
}

/// Whether bytes between two places of a text are whole characters of it.
pub open spec fn is_part(source: Seq<char>, start: int, end: int) -> bool {
    &&& 0 <= start <= end <= encode_utf8(source).len()
    &&& valid_utf8(bytes_between(source, start, end))
}

/// A text without a line break at its end.
pub open spec fn without_break(text: Seq<char>) -> Seq<char> {
    if text.len() > 0 && text.last() == '\n' {
        text.drop_last()
    } else {
        text
    }
}

/// The diagram that an event begins.
pub open spec fn diagram_of(source: Seq<char>, event: MarkdownEvent) -> Option<DiagramModel> {
    match event.code_block {
        Some(block) => match mermaid_scale(block.info@) {
            Some(scale) => Some(
                DiagramModel {
                    content_start: block.content_start,
                    content_end: block.content_end,
                    contents: without_break(
                        decode_utf8(
                            bytes_between(
                                source,
                                block.content_start as int,
                                block.content_end as int,
                            ),
                        ),
                    ),
                    scale,
                },
            ),
            None => None,
        },
        None => None,
    }
}

/// Whether the contents of a diagram are part of a text.
pub open spec fn is_within(source: Seq<char>, event: MarkdownEvent) -> bool {
    match event.code_block {
        Some(block) => mermaid_scale(block.info@) is Some ==> is_part(
            source,
            block.content_start as int,
            block.content_end as int,
        ),
        None => true,
    }
}

/// The diagrams of a text, each with the byte at which it begins, in this order.
pub type MermaidDiagrams = Vec<(usize, ParsedMarkdownMermaidDiagram)>;

pub open spec fn diagram_models(diagrams: Seq<(usize, ParsedMarkdownMermaidDiagram)>) -> Seq<
    (usize, DiagramModel),
> {
    Seq::new(diagrams.len(), |i: int| (diagrams[i].0, diagrams[i].1@))
}

/// The first place from `from` on that begins no earlier than a byte.
pub open spec fn place_from(diagrams: Seq<(usize, DiagramModel)>, from: int, start: usize) -> int
    decreases diagrams.len() - from,
{
    if from < 0 || from >= diagrams.len() || diagrams[from].0 >= start {
        from
    } else {
        place_from(diagrams, from + 1, start)
    }
}

/// The diagrams with one more. It takes the place of one that begins where it
/// does.
pub open spec fn placed(
    diagrams: Seq<(usize, DiagramModel)>,
    start: usize,
    diagram: DiagramModel,
) -> Seq<(usize, DiagramModel)> {
    let at = place_from(diagrams, 0, start);
    if at < diagrams.len() && diagrams[at].0 == start {
        diagrams.update(at, (start, diagram))
    } else {
        diagrams.insert(at, (start, diagram))
    }
}

/// The diagrams of the first `n` events.
pub open spec fn diagrams_before(source: Seq<char>, events: Seq<MarkdownEvent>, n: int) -> Seq<
    (usize, DiagramModel),
>
    decreases n,
{
    if n <= 0 {
        seq![]
    } else {
        let before = diagrams_before(source, events, n - 1);
        match diagram_of(source, events[n - 1]) {
            Some(diagram) => placed(before, events[n - 1].source_start, diagram),
            None => before,
        }
    }
}

/// Whether diagrams stand in the order in which they begin, each once.
pub open spec fn is_ascending(diagrams: Seq<(usize, DiagramModel)>) -> bool {
    forall|i: int, j: int|
        0 <= i < j < diagrams.len() ==> (#[trigger] diagrams[i]).0 < (#[trigger] diagrams[j]).0
}

proof fn lemma_place_from(diagrams: Seq<(usize, DiagramModel)>, from: int, start: usize)
    requires
        0 <= from <= diagrams.len(),
    ensures
        from <= place_from(diagrams, from, start) <= diagrams.len(),
        forall|i: int|
            from <= i < place_from(diagrams, from, start) ==> (#[trigger] diagrams[i]).0 < start,
        place_from(diagrams, from, start) < diagrams.len() ==> diagrams[place_from(
            diagrams,
            from,
            start,
        )].0 >= start,
    decreases diagrams.len() - from,
{
    if from < diagrams.len() && diagrams[from].0 < start {
        lemma_place_from(diagrams, from + 1, start);
    }
}

proof fn lemma_placed(
    diagrams: Seq<(usize, DiagramModel)>,
    start: usize,
    diagram: DiagramModel,
)
    requires
        is_ascending(diagrams),
    ensures
        is_ascending(placed(diagrams, start, diagram)),
{
    lemma_place_from(diagrams, 0, start);
    let at = place_from(diagrams, 0, start);
    let after = placed(diagrams, start, diagram);
    assert forall|i: int, j: int| 0 <= i < j < after.len() implies (#[trigger] after[i]).0 < (
    #[trigger] after[j]).0 by {
        if after.len() == diagrams.len() {
            assert(after[i].0 == diagrams[i].0 && after[j].0 == diagrams[j].0);
        } else {
            let i0 = if i < at { i } else { i - 1 };
            let j0 = if j < at { j } else { j - 1 };
            if i == at {
                assert(after[j] == diagrams[j0]);
                if j0 > at {
                    assert(diagrams[at].0 < diagrams[j0].0);
                }
            } else if j == at {
                assert(after[i] == diagrams[i0]);
            } else {
                assert(after[i] == diagrams[i0] && after[j] == diagrams[j0]);
            }
        }
    }
}

fn place(diagrams: &mut MermaidDiagrams, start: usize, diagram: ParsedMarkdownMermaidDiagram)
    ensures
        diagram_models(final(diagrams)@) == placed(
            diagram_models(old(diagrams)@),
            start,
            diagram@,
        ),
{
    let ghost before = diagram_models(diagrams@);
    let ghost view = diagram@;
    let mut at: usize = 0;
    while at < diagrams.len() && diagrams[at].0 < start
        invariant
            *diagrams == *old(diagrams),
            before == diagram_models(diagrams@),
            at <= diagrams@.len(),
            place_from(before, 0, start) == place_from(before, at as int, start),
        decreases diagrams@.len() - at,
    {
        assert(before[at as int].0 == diagrams@[at as int].0);
        at += 1;
    }
    if at < diagrams.len() {
        assert(before[at as int].0 == diagrams@[at as int].0);
    }
    if at < diagrams.len() && diagrams[at].0 == start {
        diagrams.set(at, (start, diagram));
    } else {
        diagrams.insert(at, (start, diagram));
    }
    assert(diagram_models(diagrams@) =~= placed(before, start, view));
}

fn contents_of(source: &str, start: usize, end: usize) -> (contents: String)
    requires
        is_part(source@, start as int, end as int),
    ensures
        contents@ == without_break(decode_utf8(bytes_between(source@, start as int, end as int))),
{
    let bytes = slice_subrange(source.as_bytes(), start, end);
    let part = vstd::slice::slice_to_vec(bytes);
    let ghost text = decode_utf8(part@);
    match utf8_text(part) {
        Some(part) => {
            let chars = chars_of(part.as_str());
            let length = chars.len();
            if length > 0 && chars[length - 1] == '\n' {
                let kept = slice_subrange(chars.as_slice(), 0, length - 1);
                assert(kept@ =~= text.drop_last());
                text_of(kept)
            } else {
                part
            }
        },
        None => String::new(),
    }
}

/// The diagrams of a text, from what is told of its elements.
pub fn extract_mermaid_diagrams(source: &str, events: &Vec<MarkdownEvent>) -> (diagrams:
    MermaidDiagrams)
    requires
        forall|i: int| 0 <= i < events@.len() ==> is_within(source@, #[trigger] events@[i]),
    ensures
        diagram_models(diagrams@) == diagrams_before(source@, events@, events@.len() as int),
        is_ascending(diagram_models(diagrams@)),
{
    let mut diagrams: MermaidDiagrams = Vec::new();
    assert(diagram_models(diagrams@) =~= seq![]);
    let mut i: usize = 0;
    while i < events.len()
        invariant
            i <= events@.len(),
            forall|i: int| 0 <= i < events@.len() ==> is_within(source@, #[trigger] events@[i]),
            diagram_models(diagrams@) == diagrams_before(source@, events@, i as int),
            is_ascending(diagram_models(diagrams@)),
        decreases events@.len() - i,
    {
        let event = &events[i];
        assert(is_within(source@, events@[i as int]));
        if let Some(block) = &event.code_block {
            if let Some(scale) = parse_mermaid_info(block.info.as_str()) {
                let contents = contents_of(source, block.content_start, block.content_end);
                let diagram = ParsedMarkdownMermaidDiagram {
                    content_start: block.content_start,
                    content_end: block.content_end,
                    contents: ParsedMarkdownMermaidDiagramContents { contents, scale },
                };
                proof {
                    lemma_placed(diagram_models(diagrams@), event.source_start, diagram@);
                }
                place(&mut diagrams, event.source_start, diagram);
            }
        }
        i += 1;
    }
    diagrams
}

/// A picture of a diagram: the one that was drawn of it, or that it cannot be
/// drawn, once that is known, and the one that is shown meanwhile.
#[derive(Clone, Copy, Debug, PartialEq, Eq, Structural)]
pub struct CachedMermaidDiagram {
    pub render_image: RenderState,
    pub fallback_image: Option<u64>,
}

/// What is known of the picture of a diagram. A picture is known by its number.
#[derive(Clone, Copy, Debug, PartialEq, Eq, Structural)]
pub enum RenderState {
    Pending,
    Image(u64),
    Failed,
}

/// The pictures of diagrams.
#[derive(Debug)]
pub struct MermaidDiagramCache {
    pub entries: Vec<(MermaidCacheKey, CachedMermaidDiagram)>,
}

/// The first place from `from` on that is for a key.
pub open spec fn cached_from(
    entries: Seq<(MermaidCacheKey, CachedMermaidDiagram)>,
    from: int,
    key: KeyModel,
) -> Option<int>
    decreases entries.len() - from,
{
    if from < 0 || from >= entries.len() {
        None
    } else if entries[from].0@ == key {
        Some(from)
    } else {
        cached_from(entries, from + 1, key)
    }
}

impl View for MermaidDiagramCache {
    type V = Map<KeyModel, CachedMermaidDiagram>;

    open spec fn view(&self) -> Map<KeyModel, CachedMermaidDiagram> {
        Map::new(
            |key: KeyModel| cached_from(self.entries@, 0, key) is Some,
            |key: KeyModel| self.entries@[cached_from(self.entries@, 0, key)->0].1,
        )
    }
}

proof fn lemma_cached_from(
    entries: Seq<(MermaidCacheKey, CachedMermaidDiagram)>,
    from: int,
    key: KeyModel,
)
    requires
        0 <= from <= entries.len(),
    ensures
        match cached_from(entries, from, key) {
            Some(index) => from <= index < entries.len() && entries[index].0@ == key && forall|
                i: int,
            | from <= i < index ==> (#[trigger] entries[i]).0@ != key,
            None => forall|i: int| from <= i < entries.len() ==> (#[trigger] entries[i]).0@ != key,
        },
    decreases entries.len() - from,
{
    if from < entries.len() && entries[from].0@ != key {
        lemma_cached_from(entries, from + 1, key);
    }
}

proof fn lemma_cached_from_is(
    entries: Seq<(MermaidCacheKey, CachedMermaidDiagram)>,
    from: int,
    key: KeyModel,
    index: int,
)
    requires
        0 <= from <= index < entries.len(),
        entries[index].0@ == key,
        forall|i: int| from <= i < index ==> (#[trigger] entries[i]).0@ != key,
    ensures
        cached_from(entries, from, key) == Some(index),
    decreases index - from,
{
    if from < index {
        lemma_cached_from_is(entries, from + 1, key, index);
    }
}

fn same_key(a: &MermaidCacheKey, b: &MermaidCacheKey) -> (same: bool)
    ensures
        same == (a@ == b@),
{
    a.is_light == b.is_light && a.contents.scale == b.contents.scale && same_text(
        a.contents.contents.as_str(),
        b.contents.contents.as_str(),
    )
}

fn copied_key(key: &MermaidCacheKey) -> (copy: MermaidCacheKey)
    ensures
        copy@ == key@,
{
    MermaidCacheKey {
        contents: ParsedMarkdownMermaidDiagramContents {
            contents: key.contents.contents.clone(),
            scale: key.contents.scale,
        },
        is_light: key.is_light,
    }
}

impl MermaidDiagramCache {
    pub fn new() -> (cache: Self)
        ensures
            cache@ == Map::<KeyModel, CachedMermaidDiagram>::empty(),
    {
        let cache = MermaidDiagramCache { entries: Vec::new() };
        assert(cache@ =~= Map::empty());
        cache
    }

    fn find(&self, key: &MermaidCacheKey) -> (found: Option<usize>)
        ensures
            match found {
                Some(index) => index < self.entries@.len() && cached_from(
                    self.entries@,
                    0,
                    key@,
                ) == Some(index as int),
                None => cached_from(self.entries@, 0, key@) is None,
            },
    {
        let mut i: usize = 0;
        while i < self.entries.len()
            invariant
                i <= self.entries@.len(),
                cached_from(self.entries@, 0, key@) == cached_from(self.entries@, i as int, key@),
            decreases self.entries@.len() - i,
        {
            if same_key(&self.entries[i].0, key) {
                return Some(i);
            }
            i += 1;
        }
        None
    }

    pub fn get(&self, key: &MermaidCacheKey) -> (cached: Option<CachedMermaidDiagram>)
        ensures
            cached == if self@.contains_key(key@) {
                Some(self@[key@])
            } else {
                None
            },
    {
        match self.find(key) {
            Some(index) => Some(self.entries[index].1),
            None => None,
        }
    }

    pub fn contains_key(&self, key: &MermaidCacheKey) -> (contains: bool)
        ensures
            contains == self@.contains_key(key@),
    {
        self.find(key).is_some()
    }

    pub fn insert(&mut self, key: MermaidCacheKey, cached: CachedMermaidDiagram)
        ensures
            final(self)@ == old(self)@.insert(key@, cached),
    {
        let ghost before = self.entries@;
        let ghost view = key@;
        match self.find(&key) {
            Some(index) => {
                self.entries.set(index, (key, cached));
                proof {
                    let after = self.entries@;
                    assert forall|other: KeyModel| #[trigger]
                        cached_from(after, 0, other) == cached_from(before, 0, other) by {
                        lemma_cached_from(before, 0, other);
                        lemma_cached_from(after, 0, other);
                        assert forall|i: int| 0 <= i < before.len() implies (#[trigger]
                        after[i]).0@ == before[i].0@ by {
                            lemma_cached_from(before, 0, view);
                        }
                        if let Some(at) = cached_from(before, 0, other) {
                            assert(after[at].0@ == before[at].0@);
                            assert forall|i: int| 0 <= i < at implies (#[trigger] after[i]).0@
                                != other by {
                                assert(before[i].0@ != other);
                            }
                            lemma_cached_from_is(after, 0, other, at);
                        } else if let Some(at) = cached_from(after, 0, other) {
                            assert(after[at].0@ == before[at].0@);
                        }
                    }
                    lemma_cached_from(before, 0, view);
                    assert forall|other: KeyModel| other != view && old(self)@.contains_key(
                        other,
                    ) implies #[trigger] self@[other] == old(self)@[other] by {
                        lemma_cached_from(before, 0, other);
                    }
                    assert(self@ =~= old(self)@.insert(view, cached));
                }
            },
            None => {
                self.entries.push((key, cached));
                proof {
                    let after = self.entries@;
                    lemma_cached_from(before, 0, view);
                    assert forall|i: int| 0 <= i < before.len() implies (#[trigger] after[i]).0@
                        != view by {
                        assert(before[i].0@ != view);
                    }
                    lemma_cached_from_is(after, 0, view, before.len() as int);
                    assert forall|other: KeyModel| other != view implies #[trigger] cached_from(
                        after,
                        0,
                        other,
                    ) == cached_from(before, 0, other) by {
                        lemma_cached_from(before, 0, other);
                        lemma_cached_from(after, 0, other);
                        if let Some(at) = cached_from(before, 0, other) {
                            assert forall|i: int| 0 <= i < at implies (#[trigger] after[i]).0@
                                != other by {
                                assert(before[i].0@ != other);
                            }
                            lemma_cached_from_is(after, 0, other, at);
                        } else if let Some(at) = cached_from(after, 0, other) {
                            if at < before.len() {
                                assert(before[at].0@ != other);
                            }
                        }
                    }
                    assert forall|other: KeyModel| other != view && old(self)@.contains_key(
                        other,
                    ) implies #[trigger] self@[other] == old(self)@[other] by {
                        lemma_cached_from(before, 0, other);
                    }
                    assert(self@ =~= old(self)@.insert(view, cached));
                }
            },
        }
    }
}

pub open spec fn key_models(keys: Seq<MermaidCacheKey>) -> Seq<KeyModel> {
    Seq::new(keys.len(), |i: int| keys[i]@)
}

fn has_key(keys: &Vec<MermaidCacheKey>, key: &MermaidCacheKey) -> (has: bool)
    ensures
        has == key_models(keys@).contains(key@),
{
    let ghost models = key_models(keys@);
    let mut i: usize = 0;
    while i < keys.len()
        invariant
            i <= keys@.len(),
            models == key_models(keys@),
            forall|k: int| 0 <= k < i ==> #[trigger] models[k] != key@,
        decreases keys@.len() - i,
    {
        assert(models[i as int] == keys@[i as int]@);
        if same_key(&keys[i], key) {
            return true;
        }
        i += 1;
    }
    false
}

/// The pictures that are for one of some keys.
pub open spec fn restricted(
    cache: Map<KeyModel, CachedMermaidDiagram>,
    keys: Seq<KeyModel>,
) -> Map<KeyModel, CachedMermaidDiagram> {
    cache.restrict(Set::new(|key: KeyModel| keys.contains(key)))
}

/// Whether what is kept of the first `n` entries says the same of a key as they
/// do.
spec fn agrees(
    kept: Seq<(MermaidCacheKey, CachedMermaidDiagram)>,
    entries: Seq<(MermaidCacheKey, CachedMermaidDiagram)>,
    key: KeyModel,
) -> bool {
    match cached_from(entries, 0, key) {
        Some(index) => cached_from(kept, 0, key) is Some && kept[cached_from(kept, 0, key)->0].1
            == entries[index].1,
        None => cached_from(kept, 0, key) is None,
    }
}

proof fn lemma_agrees_push(
    kept: Seq<(MermaidCacheKey, CachedMermaidDiagram)>,
    entries: Seq<(MermaidCacheKey, CachedMermaidDiagram)>,
    last: (MermaidCacheKey, CachedMermaidDiagram),
    copy: (MermaidCacheKey, CachedMermaidDiagram),
    key: KeyModel,
)
    requires
        agrees(kept, entries, key),
        copy.0@ == last.0@,
        copy.1 == last.1,
    ensures
        agrees(kept.push(copy), entries.push(last), key),
        last.0@ != key ==> agrees(kept, entries.push(last), key),
{
    let more = entries.push(last);
    let longer = kept.push(copy);
    lemma_cached_from(entries, 0, key);
    lemma_cached_from(kept, 0, key);
    lemma_cached_from(more, 0, key);
    lemma_cached_from(longer, 0, key);
    match cached_from(entries, 0, key) {
        Some(at) => {
            assert forall|i: int| 0 <= i < at implies (#[trigger] more[i]).0@ != key by {
                assert(entries[i].0@ != key);
            }
            lemma_cached_from_is(more, 0, key, at);
            let k = cached_from(kept, 0, key)->0;
            assert forall|i: int| 0 <= i < k implies (#[trigger] longer[i]).0@ != key by {
                assert(kept[i].0@ != key);
            }
            lemma_cached_from_is(longer, 0, key, k);
        },
        None => {
            assert forall|i: int| 0 <= i < entries.len() implies (#[trigger] more[i]).0@ != key by {
                assert(entries[i].0@ != key);
            }
            assert forall|i: int| 0 <= i < kept.len() implies (#[trigger] longer[i]).0@ != key by {
                assert(kept[i].0@ != key);
            }
            if last.0@ == key {
                lemma_cached_from_is(more, 0, key, entries.len() as int);
                lemma_cached_from_is(longer, 0, key, kept.len() as int);
            }
        },
    }
}

impl MermaidDiagramCache {
    /// Keeps the pictures that are for one of some keys.
    pub fn retain(&mut self, keys: &Vec<MermaidCacheKey>)
        ensures
            final(self)@ == restricted(old(self)@, key_models(keys@)),
    {
        let ghost all = self.entries@;
        let ghost wanted = key_models(keys@);
        let mut kept: Vec<(MermaidCacheKey, CachedMermaidDiagram)> = Vec::new();
        let mut i: usize = 0;
        while i < self.entries.len()
            invariant
                *self == *old(self),
                all == self.entries@,
                wanted == key_models(keys@),
                i <= all.len(),
                forall|key: KeyModel|
                    wanted.contains(key) ==> #[trigger] agrees(kept@, all.take(i as int), key),
                forall|k: int| 0 <= k < kept@.len() ==> wanted.contains((#[trigger] kept@[k]).0@),
            decreases all.len() - i,
        {
            let ghost before = kept@;
            let ghost last = all[i as int];
            assert(all.take(i + 1) =~= all.take(i as int).push(last));
            let copy = (copied_key(&self.entries[i].0), self.entries[i].1);
            proof {
                assert forall|key: KeyModel| wanted.contains(key) implies agrees(
                    before.push(copy),
                    all.take(i + 1),
                    key,
                ) && (last.0@ != key ==> agrees(before, all.take(i + 1), key)) by {
                    assert(agrees(before, all.take(i as int), key));
                    lemma_agrees_push(before, all.take(i as int), last, copy, key);
                }
            }
            if has_key(keys, &self.entries[i].0) {
                kept.push(copy);
            }
            i += 1;
        }
        assert(all.take(all.len() as int) =~= all);
        self.entries = kept;
        proof {
            let after = self@;
            let goal = restricted(old(self)@, wanted);
            assert forall|key: KeyModel| #[trigger] after.contains_key(key) == goal.contains_key(
                key,
            ) by {
                if wanted.contains(key) {
                    assert(agrees(self.entries@, all, key));
                } else {
                    lemma_cached_from(self.entries@, 0, key);
                }
            }
            assert forall|key: KeyModel| after.contains_key(key) implies #[trigger] after[key]
                == goal[key] by {
                assert(goal.contains_key(key));
                assert(agrees(self.entries@, all, key));
            }
            assert(after =~= goal);
        }
    }
}

/// What is kept of the diagrams of a text: their pictures, and the diagrams in
/// their order.
#[derive(Debug)]
pub struct MermaidState {
    pub cache: MermaidDiagramCache,
    pub order: Vec<MermaidCacheKey>,
    /// Whether the pictures were last asked for on a light background.
    pub is_light: bool,
}

/// The picture of a diagram that can stand in for another one: its own, else the
/// one that stood in for it.
pub open spec fn stand_in(cached: CachedMermaidDiagram) -> Option<u64> {
    match cached.render_image {
        RenderState::Image(image) => Some(image),
        _ => cached.fallback_image,
    }
}

/// The picture that is shown for a diagram until its own is drawn: that of the
/// diagram that stood at its place, where there are as many as before.
pub open spec fn fallback_of(
    index: int,
    old_order: Seq<KeyModel>,
    new_count: int,
    cache: Map<KeyModel, CachedMermaidDiagram>,
) -> Option<u64> {
    if old_order.len() != new_count || index >= old_order.len() {
        None
    } else if cache.contains_key(old_order[index]) {
        stand_in(cache[old_order[index]])
    } else {
        None
    }
}

/// The pictures once there is an entry for each of the first `n` diagrams.
pub open spec fn filled(
    cache: Map<KeyModel, CachedMermaidDiagram>,
    old_order: Seq<KeyModel>,
    new_order: Seq<KeyModel>,
    n: int,
) -> Map<KeyModel, CachedMermaidDiagram>
    decreases n,
{
    if n <= 0 {
        cache
    } else {
        let before = filled(cache, old_order, new_order, n - 1);
        if before.contains_key(new_order[n - 1]) {
            before
        } else {
            before.insert(
                new_order[n - 1],
                CachedMermaidDiagram {
                    render_image: RenderState::Pending,
                    fallback_image: fallback_of(
                        n - 1,
                        old_order,
                        new_order.len() as int,
                        before,
                    ),
                },
            )
        }
    }
}

/// The diagrams among the first `n` whose pictures are to be drawn.
pub open spec fn to_draw(
    cache: Map<KeyModel, CachedMermaidDiagram>,
    old_order: Seq<KeyModel>,
    new_order: Seq<KeyModel>,
    n: int,
) -> Seq<KeyModel>
    decreases n,
{
    if n <= 0 {
        seq![]
    } else if filled(cache, old_order, new_order, n - 1).contains_key(new_order[n - 1]) {
        to_draw(cache, old_order, new_order, n - 1)
    } else {
        to_draw(cache, old_order, new_order, n - 1).push(new_order[n - 1])
    }
}

/// The diagrams of a text as keys.
pub open spec fn order_in(
    diagrams: Seq<(usize, ParsedMarkdownMermaidDiagram)>,
    is_light: bool,
) -> Seq<KeyModel> {
    Seq::new(
        diagrams.len(),
        |i: int|
            KeyModel {
                contents: diagrams[i].1.contents.contents@,
                scale: diagrams[i].1.contents.scale,
                is_light,
            },
    )
}

/// How a diagram is shown.
#[derive(Debug, PartialEq, Eq)]
pub enum DiagramLook {
    Image(u64),
    /// It cannot be drawn, and its source is shown.
    Source(String),
    /// Another picture, until its own is drawn.
    Fallback(u64),
    Loading,
}

impl MermaidState {
    /// The pictures are exactly those of the diagrams.
    pub open spec fn well_formed(self) -> bool {
        forall|key: KeyModel| #[trigger]
            self.cache@.contains_key(key) <==> key_models(self.order@).contains(key)
    }

    pub fn new() -> (state: Self)
        ensures
            state.cache@ == Map::<KeyModel, CachedMermaidDiagram>::empty(),
            state.order@.len() == 0,
            !state.is_light,
            state.well_formed(),
    {
        MermaidState { cache: MermaidDiagramCache::new(), order: Vec::new(), is_light: false }
    }

    pub fn clear(&mut self)
        ensures
            final(self).cache@ == Map::<KeyModel, CachedMermaidDiagram>::empty(),
            final(self).order@.len() == 0,
            final(self).is_light == old(self).is_light,
            final(self).well_formed(),
    {
        self.cache = MermaidDiagramCache::new();
        self.order = Vec::new();
    }

    pub fn get_fallback_image(
        idx: usize,
        old_order: &[MermaidCacheKey],
        new_order_len: usize,
        cache: &MermaidDiagramCache,
    ) -> (image: Option<u64>)
        ensures
            image == fallback_of(
                idx as int,
                key_models(old_order@),
                new_order_len as int,
                cache@,
            ),
    {
        if old_order.len() != new_order_len || idx >= old_order.len() {
            return None;
        }
        assert(key_models(old_order@)[idx as int] == old_order@[idx as int]@);
        match cache.get(&old_order[idx]) {
            Some(cached) => match cached.render_image {
                RenderState::Image(image) => Some(image),
                RenderState::Pending => cached.fallback_image,
                RenderState::Failed => cached.fallback_image,
            },
            None => None,
        }
    }

    /// Takes note of the diagrams of a text, and says which pictures are to be
    /// drawn. Pictures that are there stay, and those of other diagrams go.
    pub fn update(&mut self, diagrams: &MermaidDiagrams, is_light: bool) -> (draw: Vec<
        MermaidCacheKey,
    >)
        ensures
            ({
                let old_order = key_models(old(self).order@);
                let new_order = order_in(diagrams@, is_light);
                let count = new_order.len() as int;
                &&& final(self).is_light == is_light
                &&& key_models(final(self).order@) == new_order
                &&& final(self).cache@ == restricted(
                    filled(old(self).cache@, old_order, new_order, count),
                    new_order,
                )
                &&& key_models(draw@) == to_draw(old(self).cache@, old_order, new_order, count)
            }),
            final(self).well_formed(),
    {
        let ghost start = self.cache@;
        let ghost old_order = key_models(self.order@);
        let ghost wanted = order_in(diagrams@, is_light);
        self.is_light = is_light;
        let mut new_order: Vec<MermaidCacheKey> = Vec::new();
        let mut i: usize = 0;
        while i < diagrams.len()
            invariant
                i <= diagrams@.len(),
                wanted == order_in(diagrams@, is_light),
                key_models(new_order@) =~= wanted.take(i as int),
            decreases diagrams@.len() - i,
        {
            let ghost before = key_models(new_order@);
            let contents = &diagrams[i].1.contents;
            new_order.push(
                MermaidCacheKey {
                    contents: ParsedMarkdownMermaidDiagramContents {
                        contents: contents.contents.clone(),
                        scale: contents.scale,
                    },
                    is_light,
                },
            );
            assert(key_models(new_order@) =~= before.push(wanted[i as int]));
            i += 1;
        }
        assert(key_models(new_order@) =~= wanted);
        let mut draw: Vec<MermaidCacheKey> = Vec::new();
        assert(key_models(draw@) =~= seq![]);
        let mut idx: usize = 0;
        while idx < new_order.len()
            invariant
                idx <= new_order@.len(),
                new_order@.len() == wanted.len(),
                wanted == key_models(new_order@),
                old_order == key_models(self.order@),
                self.is_light == is_light,
                self.cache@ == filled(start, old_order, wanted, idx as int),
                key_models(draw@) == to_draw(start, old_order, wanted, idx as int),
            decreases new_order@.len() - idx,
        {
            assert(wanted[idx as int] == new_order@[idx as int]@);
            if !self.cache.contains_key(&new_order[idx]) {
                let ghost before = key_models(draw@);
                let fallback_image = Self::get_fallback_image(
                    idx,
                    self.order.as_slice(),
                    new_order.len(),
                    &self.cache,
                );
                self.cache.insert(
                    copied_key(&new_order[idx]),
                    CachedMermaidDiagram { render_image: RenderState::Pending, fallback_image },
                );
                draw.push(copied_key(&new_order[idx]));
                assert(key_models(draw@) =~= before.push(wanted[idx as int]));
            }
            idx += 1;
        }
        self.cache.retain(&new_order);
        self.order = new_order;
        proof {
            assert forall|key: KeyModel| #[trigger]
                self.cache@.contains_key(key) <==> wanted.contains(key) by {
                lemma_filled(start, old_order, wanted, wanted.len() as int, key);
            }
        }
        draw
    }

    /// Takes note of a picture that was drawn, or could not be. The first one
    /// stays.
    pub fn diagram_rendered(&mut self, key: &MermaidCacheKey, image: Option<u64>)
        ensures
            final(self).order@ == old(self).order@,
            final(self).is_light == old(self).is_light,
            final(self).cache@ == if old(self).cache@.contains_key(key@) && old(
                self
            ).cache@[key@].render_image is Pending {
                old(self).cache@.insert(
                    key@,
                    CachedMermaidDiagram {
                        render_image: match image {
                            Some(image) => RenderState::Image(image),
                            None => RenderState::Failed,
                        },
                        fallback_image: old(self).cache@[key@].fallback_image,
                    },
                )
            } else {
                old(self).cache@
            },
            old(self).well_formed() ==> final(self).well_formed(),
    {
        if let Some(cached) = self.cache.get(key) {
            match cached.render_image {
                RenderState::Pending => {
                    let render_image = match image {
                        Some(image) => RenderState::Image(image),
                        None => RenderState::Failed,
                    };
                    self.cache.insert(
                        copied_key(key),
                        CachedMermaidDiagram {
                            render_image,
                            fallback_image: cached.fallback_image,
                        },
                    );
                },
                RenderState::Image(_) => {},
                RenderState::Failed => {},
            }
        }
    }

    /// How a diagram is shown.
    pub fn render_mermaid_diagram(&self, parsed: &ParsedMarkdownMermaidDiagram) -> (look:
        DiagramLook)
        ensures
            ({
                let key = KeyModel {
                    contents: parsed.contents.contents@,
                    scale: parsed.contents.scale,
                    is_light: self.is_light,
                };
                if !self.cache@.contains_key(key) {
                    look is Loading
                } else {
                    match self.cache@[key].render_image {
                        RenderState::Image(image) => look == DiagramLook::Image(image),
                        RenderState::Failed => look matches DiagramLook::Source(source) && source@
                            == parsed.contents.contents@,
                        RenderState::Pending => match self.cache@[key].fallback_image {
                            Some(image) => look == DiagramLook::Fallback(image),
                            None => look is Loading,
                        },
                    }
                }
            }),
    {
        let key = MermaidCacheKey {
            contents: ParsedMarkdownMermaidDiagramContents {
                contents: parsed.contents.contents.clone(),
                scale: parsed.contents.scale,
            },
            is_light: self.is_light,
        };
        match self.cache.get(&key) {
            Some(cached) => match cached.render_image {
                RenderState::Image(image) => DiagramLook::Image(image),
                RenderState::Failed => DiagramLook::Source(key.contents.contents),
                RenderState::Pending => match cached.fallback_image {
                    Some(image) => DiagramLook::Fallback(image),
                    None => DiagramLook::Loading,
                },
            },
            None => DiagramLook::Loading,
        }
    }
}

proof fn lemma_filled(
    cache: Map<KeyModel, CachedMermaidDiagram>,
    old_order: Seq<KeyModel>,
    new_order: Seq<KeyModel>,
    n: int,
    key: KeyModel,
)
    requires
        0 <= n <= new_order.len(),
    ensures
        cache.contains_key(key) ==> filled(cache, old_order, new_order, n).contains_key(key)
            && filled(cache, old_order, new_order, n)[key] == cache[key],
        new_order.take(n).contains(key) ==> filled(cache, old_order, new_order, n).contains_key(key),
        n == new_order.len() && new_order.contains(key) ==> filled(
            cache,
            old_order,
            new_order,
            n,
        ).contains_key(key),
    decreases n,
{
    if n > 0 {
        lemma_filled(cache, old_order, new_order, n - 1, key);
        if new_order.take(n).contains(key) {
            let i = choose|i: int| 0 <= i < n && new_order.take(n)[i] == key;
            if i < n - 1 {
                assert(new_order.take(n - 1)[i] == key);
            }
        }
    }
    if n == new_order.len() {
        assert(new_order.take(n) =~= new_order);
    }
}

/// A picture that is there stays as it is, as long as its diagram does.
pub proof fn law_pictures_stay(
    cache: Map<KeyModel, CachedMermaidDiagram>,
    old_order: Seq<KeyModel>,
    new_order: Seq<KeyModel>,
    key: KeyModel,
)
    requires
        cache.contains_key(key),
        new_order.contains(key),
    ensures
        ({
            let after = restricted(
                filled(cache, old_order, new_order, new_order.len() as int),
                new_order,
            );
            after.contains_key(key) && after[key] == cache[key]
        }),
{
    lemma_filled(cache, old_order, new_order, new_order.len() as int, key);
}

/// After a change of the background no picture for the other one is left.
pub proof fn law_change_of_background(
    cache: Map<KeyModel, CachedMermaidDiagram>,
    old_order: Seq<KeyModel>,
    diagrams: Seq<(usize, ParsedMarkdownMermaidDiagram)>,
    is_light: bool,
    key: KeyModel,
)
    requires
        key.is_light != is_light,
    ensures
        ({
            let new_order = order_in(diagrams, is_light);
            !restricted(
                filled(cache, old_order, new_order, new_order.len() as int),
                new_order,
            ).contains_key(key)
        }),
{
}

/// The colours of a picture on a dark background.
#[derive(Debug)]
pub struct MermaidPalette {
    pub background: String,
    pub primary_color: String,
    pub secondary_color: String,
    pub tertiary_color: String,
    pub primary_text_color: String,
    pub text_color: String,
    pub primary_border_color: String,
    pub line_color: String,
    pub edge_label_background: String,
    pub cluster_background: String,
    pub cluster_border: String,
    pub sequence_actor_fill: String,
    pub sequence_actor_border: String,
    pub sequence_actor_line: String,
    pub sequence_note_fill: String,
    pub sequence_note_border: String,
    pub sequence_activation_fill: String,
    pub sequence_activation_border: String,
    pub pie_title_text_color: String,
    pub pie_section_text_color: String,
    pub pie_legend_text_color: String,
    pub pie_stroke_color: String,
    pub pie_outer_stroke_color: String,
}

/// Whether colours are those that stand in for the colours of the light theme on a
/// dark background.
pub open spec fn is_dark_palette(palette: MermaidPalette) -> bool {
    &&& palette.background@ == "#2f343e"@
    &&& palette.primary_color@ == "#3b414d"@
    &&& palette.secondary_color@ == "#464b57"@
    &&& palette.tertiary_color@ == "#2e343e"@
    &&& palette.primary_text_color@ == "#dce0e5"@
    &&& palette.text_color@ == "#dce0e5"@
    &&& palette.primary_border_color@ == "#7d8494"@
    &&& palette.line_color@ == "#9ca3af"@
    &&& palette.edge_label_background@ == "#2f343e"@
    &&& palette.cluster_background@ == "#353b47"@
    &&& palette.cluster_border@ == "#545a67"@
    &&& palette.sequence_actor_fill@ == "#3b414d"@
    &&& palette.sequence_actor_border@ == "#7d8494"@
    &&& palette.sequence_actor_line@ == "#6b7280"@
    &&& palette.sequence_note_fill@ == "#4b3f2c"@
    &&& palette.sequence_note_border@ == "#dec184"@
    &&& palette.sequence_activation_fill@ == "#3b414d"@
    &&& palette.sequence_activation_border@ == "#7d8494"@
    &&& palette.pie_title_text_color@ == "#dce0e5"@
    &&& palette.pie_section_text_color@ == "#dce0e5"@
    &&& palette.pie_legend_text_color@ == "#dce0e5"@
    &&& palette.pie_stroke_color@ == "#94a3b8"@
    &&& palette.pie_outer_stroke_color@ == "#464b57"@
}

/// The colours that stand in for those of the light theme on a dark background.
pub fn mermaid_dark_theme() -> (palette: MermaidPalette)
    ensures
        is_dark_palette(palette),
{
    MermaidPalette {
        background: "#2f343e".to_string(),
        primary_color: "#3b414d".to_string(),
        secondary_color: "#464b57".to_string(),
        tertiary_color: "#2e343e".to_string(),
        primary_text_color: "#dce0e5".to_string(),
        text_color: "#dce0e5".to_string(),
        primary_border_color: "#7d8494".to_string(),
        line_color: "#9ca3af".to_string(),
        edge_label_background: "#2f343e".to_string(),
        cluster_background: "#353b47".to_string(),
        cluster_border: "#545a67".to_string(),
        sequence_actor_fill: "#3b414d".to_string(),
        sequence_actor_border: "#7d8494".to_string(),
        sequence_actor_line: "#6b7280".to_string(),
        sequence_note_fill: "#4b3f2c".to_string(),
        sequence_note_border: "#dec184".to_string(),
        sequence_activation_fill: "#3b414d".to_string(),
        sequence_activation_border: "#7d8494".to_string(),
        pie_title_text_color: "#dce0e5".to_string(),
        pie_section_text_color: "#dce0e5".to_string(),
        pie_legend_text_color: "#dce0e5".to_string(),
        pie_stroke_color: "#94a3b8".to_string(),
        pie_outer_stroke_color: "#464b57".to_string(),
    }
}

/// The colours that stand in for those of the light theme; none where that is the
/// one to draw with.
pub fn mermaid_palette(is_light: bool) -> (palette: Option<MermaidPalette>)
    ensures
        match palette {
            Some(palette) => !is_light && is_dark_palette(palette),
            None => is_light,
        },
{
    if is_light {
        None
    } else {
        Some(mermaid_dark_theme())
    }
}

/// The scale of a diagram is the number that is written, no smaller than a tenth
/// and no larger than five times its size; its own size where no number is.
pub proof fn law_scales(number: u64)
    ensures
        10 <= number <= 500 ==> scale_in(decimal(number as nat)) == number,
        number < 10 ==> scale_in(decimal(number as nat)) == 10,
        500 < number <= u32::MAX ==> scale_in(decimal(number as nat)) == 500,
        number > u32::MAX ==> scale_in(decimal(number as nat)) == 100,
        scale_in(seq![]) == 100,
{
    let digits = decimal(number as nat);
    lemma_decimal_value(number as nat);
    assert(is_ascii_digit(digits[0]));
    assert(parse_number(digits) == Some(number));
}

proof fn lemma_word_end(s: Seq<char>, from: int, end: int)
    requires
        0 <= from <= end <= s.len(),
        forall|k: int| from <= k < end ==> !CharClass::Whitespace.has(#[trigger] s[k]),
        end < s.len() ==> CharClass::Whitespace.has(s[end]),
    ensures
        word_end(s, from) == end,
    decreases end - from,
{
    if from < end {
        assert(!CharClass::Whitespace.has(s[from]));
        lemma_word_end(s, from + 1, end);
    }
}

/// A block of code is a diagram where the first word behind its fence says so, and
/// the second word is its scale.
pub proof fn law_fences_of_diagrams(first: Seq<char>, second: Seq<char>)
    requires
        first.len() > 0,
        forall|k: int| 0 <= k < first.len() ==> !CharClass::Whitespace.has(#[trigger] first[k]),
        forall|k: int| 0 <= k < second.len() ==> !CharClass::Whitespace.has(#[trigger] second[k]),
    ensures
        mermaid_scale(first) == if first == "mermaid"@ {
            Some(100u32)
        } else {
            None
        },
        mermaid_scale(first + seq![' '] + second) == if first == "mermaid"@ {
            Some(scale_in(second))
        } else {
            None
        },
{
    let n = first.len() as int;
    let class = CharClass::Whitespace;
    assert(!class.has(first[0]));
    lemma_run_end_is(first, 0, class, 0);
    lemma_word_end(first, 0, n);
    lemma_run_end_is(first, n, class, n);
    assert(first.subrange(0, n) =~= first);
    assert(first.subrange(n, n) =~= seq![]);
    assert(word_end(first, n) == n);
    let whole = first + seq![' '] + second;
    assert(whole[0] == first[0]);
    assert(whole[n] == ' ');
    assert(class.has(' '));
    lemma_run_end_is(whole, 0, class, 0);
    assert forall|k: int| 0 <= k < n implies !class.has(#[trigger] whole[k]) by {
        assert(whole[k] == first[k]);
    }
    lemma_word_end(whole, 0, n);
    if second.len() > 0 {
        assert(whole[n + 1] == second[0]);
    }
    lemma_run_end_is(whole, n, class, n + 1);
    assert forall|k: int| n + 1 <= k < whole.len() implies !class.has(#[trigger] whole[k]) by {
        assert(whole[k] == second[k - n - 1]);
    }
    lemma_word_end(whole, n + 1, whole.len() as int);
    assert(whole.subrange(0, n) =~= first);
    assert(whole.subrange(n + 1, whole.len() as int) =~= second);
}

/// One line break behind the text of a diagram is no part of it.
pub proof fn law_break_behind_a_diagram(text: Seq<char>)
    ensures
        without_break(text.push('\n')) == text,
        text.len() == 0 || text.last() != '\n' ==> without_break(text) == text,
{
    assert(text.push('\n').drop_last() =~= text);
}

/// Where a diagram is put among those that stand in the order of their place: it
/// is found at its place, the others stay, and nothing else comes in.
pub proof fn law_diagrams_by_place(
    diagrams: Seq<(usize, DiagramModel)>,
    start: usize,
    diagram: DiagramModel,
    other: (usize, DiagramModel),
)
    requires
        is_ascending(diagrams),
    ensures
        is_ascending(placed(diagrams, start, diagram)),
        placed(diagrams, start, diagram).contains((start, diagram)),
        other.0 != start ==> (placed(diagrams, start, diagram).contains(other)
            <==> diagrams.contains(other)),
        other.0 == start ==> (placed(diagrams, start, diagram).contains(other) <==> other.1
            == diagram),
{
    lemma_placed(diagrams, start, diagram);
    lemma_place_from(diagrams, 0, start);
    let at = place_from(diagrams, 0, start);
    let after = placed(diagrams, start, diagram);
    let replaces = at < diagrams.len() && diagrams[at].0 == start;
    assert(after[at] == (start, diagram));
    if diagrams.contains(other) && other.0 != start {
        let i = choose|i: int| 0 <= i < diagrams.len() && diagrams[i] == other;
        if replaces || i < at {
            assert(after[i] == other);
        } else {
            assert(after[i + 1] == other);
        }
    }
    if after.contains(other) {
        let i = choose|i: int| 0 <= i < after.len() && after[i] == other;
        if i != at {
            if i < at {
                assert(after[i].0 < after[at].0);
            } else {
                assert(after[at].0 < after[i].0);
            }
            if replaces || i < at {
                assert(diagrams[i] == other);
            } else {
                assert(diagrams[i - 1] == other);
            }
        }
    }
}

/// What stands in for a picture that is not drawn yet: the one at its place before,
/// where there were as many diagrams, or else what stood in for that one.
pub proof fn law_stand_ins(
    index: int,
    order: Seq<KeyModel>,
    count: int,
    cache: Map<KeyModel, CachedMermaidDiagram>,
    image: u64,
)
    requires
        0 <= index < order.len(),
    ensures
        count != order.len() ==> fallback_of(index, order, count, cache) is None,
        !cache.contains_key(order[index]) ==> fallback_of(index, order, count, cache) is None,
        count == order.len() && cache.contains_key(order[index]) ==> {
            &&& cache[order[index]].render_image == RenderState::Image(image) ==> fallback_of(
                index,
                order,
                count,
                cache,
            ) == Some(image)
            &&& !(cache[order[index]].render_image is Image) ==> fallback_of(
                index,
                order,
                count,
                cache,
            ) == cache[order[index]].fallback_image
        },
{
}

/// A diagram is drawn exactly where it stands in the text and no picture of it is
/// kept, and it is then pending.
pub proof fn law_what_is_drawn(
    cache: Map<KeyModel, CachedMermaidDiagram>,
    old_order: Seq<KeyModel>,
    new_order: Seq<KeyModel>,
    key: KeyModel,
)
    ensures
        to_draw(cache, old_order, new_order, new_order.len() as int).contains(key)
            <==> new_order.contains(key) && !cache.contains_key(key),
        new_order.contains(key) && !cache.contains_key(key) ==> filled(
            cache,
            old_order,
            new_order,
            new_order.len() as int,
        )[key].render_image is Pending,
{
    let n = new_order.len() as int;
    lemma_drawn(cache, old_order, new_order, n, key);
    assert(new_order.take(n) =~= new_order);
}

proof fn lemma_drawn(
    cache: Map<KeyModel, CachedMermaidDiagram>,
    old_order: Seq<KeyModel>,
    new_order: Seq<KeyModel>,
    n: int,
    key: KeyModel,
)
    requires
        0 <= n <= new_order.len(),
    ensures
        to_draw(cache, old_order, new_order, n).contains(key) <==> new_order.take(n).contains(key)
            && !cache.contains_key(key),
        filled(cache, old_order, new_order, n).contains_key(key) <==> cache.contains_key(key)
            || new_order.take(n).contains(key),
        new_order.take(n).contains(key) && !cache.contains_key(key) ==> filled(
            cache,
            old_order,
            new_order,
            n,
        )[key].render_image is Pending,
    decreases n,
{
    if n > 0 {
        lemma_drawn(cache, old_order, new_order, n - 1, key);
        let last = new_order[n - 1];
        let before = new_order.take(n - 1);
        assert(new_order.take(n) =~= before.push(last));
        lemma_push_contains(before, last, key);
        lemma_push_contains(to_draw(cache, old_order, new_order, n - 1), last, key);
    }
}

proof fn lemma_push_contains(keys: Seq<KeyModel>, last: KeyModel, key: KeyModel)
    ensures
        keys.push(last).contains(key) <==> keys.contains(key) || key == last,
{
    let longer = keys.push(last);
    if keys.contains(key) {
        let i = choose|i: int| 0 <= i < keys.len() && keys[i] == key;
        assert(longer[i] == key);
    }
    assert(longer[keys.len() as int] == last);
    if longer.contains(key) && key != last {
        let i = choose|i: int| 0 <= i < longer.len() && longer[i] == key;
        assert(keys[i] == key);
    }
}

} // verus!
