//! References to issues, as users type or paste them.

use vstd::prelude::*;
use vstd::slice::slice_subrange;

use crate::board::{debug_text, quoted, IssueLink, IssueRef, LinkModel, RefModel};
use crate::questionnaire::round_trip::{lemma_one_piece, lemma_pieces_push, lemma_trim_keeps};
use crate::text::{
    chars_of, decimal, extend, extend_text, find, find_from, is_ascii_digit, is_ascii_upper,
    is_text, is_whitespace, lemma_decimal_value, lemma_find_from, lemma_next_char,
    lemma_next_char_is, next_char, number_in, occurs_at, parse_number, pieces, pieces_from,
    pieces_of, run_start, seek_char, starts_with, starts_with_text, text_of, trim, trim_end_of,
    trimmed, trimmed_end_of, whitespace_char, CharClass,
};

verus! {

/// Why a text refers to no issue. Each holds the text.
#[derive(Debug, PartialEq, Eq)]
pub enum IssueError {
    InvalidNumber(String),
    UnsupportedGitHubUrl(String),
    UnsupportedUrl(String),
    Unknown(String),
}

/// What a text refers to.
pub enum Parsed {
    Link(LinkModel),
    InvalidNumber,
    UnsupportedGitHubUrl,
    UnsupportedUrl,
    Unknown,
}

/// A text up to its first `?` or `#`.
pub open spec fn without_query(s: Seq<char>) -> Seq<char> {
    let question = next_char(s, 0, '?');
    let hash = next_char(s, 0, '#');
    s.take(if question <= hash {
        question
    } else {
        hash
    })
}

pub open spec fn is_project_char(c: char) -> bool {
    is_ascii_upper(c) || is_ascii_digit(c) || c == '_'
}

/// Where the last `-` of a text stands; `None` without one.
pub open spec fn last_hyphen(s: Seq<char>, to: int) -> Option<int>
    decreases to,
{
    if to <= 0 || to > s.len() {
        None
    } else if s[to - 1] == '-' {
        Some(to - 1)
    } else {
        last_hyphen(s, to - 1)
    }
}

/// Whether a text is the key of a Backlog issue: a project in capitals, digits
/// and underscores that begins with a capital, a hyphen, and digits.
pub open spec fn is_issue_key(s: Seq<char>) -> bool {
    match last_hyphen(s, s.len() as int) {
        Some(hyphen) => {
            &&& hyphen > 0
            &&& is_ascii_upper(s[0])
            &&& forall|k: int| 0 <= k < hyphen ==> is_project_char(#[trigger] s[k])
            &&& hyphen + 1 < s.len()
            &&& forall|k: int| hyphen < k < s.len() ==> is_ascii_digit(#[trigger] s[k])
        },
        None => false,
    }
}

/// What a GitHub URL refers to, given what stands behind the host.
pub open spec fn github_url_issue(rest: Seq<char>) -> Parsed {
    let parts = pieces_of(trim_end_of(without_query(rest), CharClass::Exactly('/')), '/');
    if parts.len() == 4 && parts[2] == "issues"@ {
        match parse_number(parts[3]) {
            Some(number) => Parsed::Link(
                (RefModel::GitHub { repo: parts[0] + "/"@ + parts[1], number }).link(),
            ),
            None => Parsed::InvalidNumber,
        }
    } else {
        Parsed::UnsupportedGitHubUrl
    }
}

/// What stands between the first `://` and the next.
pub open spec fn without_scheme(input: Seq<char>) -> Seq<char> {
    match find_from(input, 0, "://"@) {
        Some(at) => {
            let rest = input.skip(at + 3);
            match find_from(rest, 0, "://"@) {
                Some(end) => rest.take(end),
                None => rest,
            }
        },
        None => seq![],
    }
}

/// What another URL refers to: `{host}/view/{key}`.
pub open spec fn backlog_url_issue(address: Seq<char>) -> Parsed {
    let segments = pieces_of(address, '/');
    if segments.len() >= 3 && segments[1] == "view"@ && is_issue_key(without_query(segments[2])) {
        let key = without_query(segments[2]);
        Parsed::Link(
            LinkModel {
                url: Some("https://"@ + segments[0] + "/view/"@ + key),
                ..(RefModel::Backlog { issue_key: key }).link()
            },
        )
    } else {
        Parsed::UnsupportedUrl
    }
}

pub open spec fn has_whitespace(s: Seq<char>) -> bool {
    exists|k: int| 0 <= k < s.len() && is_whitespace(#[trigger] s[k])
}

/// Whether a text with a hash at `hash` has the form `owner/repo#number`, up to
/// what the number is.
pub open spec fn is_repo_issue(input: Seq<char>, hash: int) -> bool {
    hash < input.len() && pieces_of(input.take(hash), '/').len() == 2 && !has_whitespace(
        input.take(hash),
    )
}

/// What a trimmed text refers to.
pub open spec fn trimmed_issue(input: Seq<char>) -> Parsed {
    let hash = next_char(input, 0, '#');
    if starts_with(input, "https://github.com/"@) {
        github_url_issue(input.skip("https://github.com/"@.len() as int))
    } else if starts_with(input, "https://"@) || starts_with(input, "http://"@) {
        backlog_url_issue(without_scheme(input))
    } else if is_repo_issue(input, hash) {
        match parse_number(input.skip(hash + 1)) {
            Some(number) => Parsed::Link(
                (RefModel::GitHub { repo: input.take(hash), number }).link(),
            ),
            None => Parsed::InvalidNumber,
        }
    } else if is_issue_key(input) {
        Parsed::Link((RefModel::Backlog { issue_key: input }).link())
    } else {
        Parsed::Unknown
    }
}

/// What a text refers to. These forms are known:
/// - `https://github.com/{owner}/{repo}/issues/{n}`
/// - `owner/repo#123`
/// - `https://{space}/view/{KEY}` (Backlog)
/// - `PROJ-198` (Backlog)
pub open spec fn issue_in(input: Seq<char>) -> Parsed {
    trimmed_issue(trim(input))
}

fn cut_query(chars: &[char]) -> (rest: &[char])
    ensures
        rest@ == without_query(chars@),
{
    let question = seek_char(chars, 0, '?');
    let hash = seek_char(chars, 0, '#');
    slice_subrange(chars, 0, if question <= hash { question } else { hash })
}

/// Whether a text is the key of a Backlog issue.
pub fn is_backlog_issue_key(input: &str) -> (b: bool)
    ensures
        b == is_issue_key(input@),
{
    let chars = chars_of(input);
    issue_key(chars.as_slice())
}

fn issue_key(input: &[char]) -> (b: bool)
    ensures
        b == is_issue_key(input@),
{
    let mut hyphen: usize = input.len();
    while hyphen > 0 && input[hyphen - 1] != '-'
        invariant
            hyphen <= input@.len(),
            last_hyphen(input@, input@.len() as int) == last_hyphen(input@, hyphen as int),
        decreases hyphen,
    {
        hyphen -= 1;
    }
    if hyphen == 0 {
        return false;
    }
    hyphen -= 1;
    if hyphen == 0 || hyphen + 1 >= input.len() || !('A' <= input[0] && input[0] <= 'Z') {
        return false;
    }
    let mut i: usize = 0;
    while i < hyphen
        invariant
            i <= hyphen < input@.len(),
            last_hyphen(input@, input@.len() as int) == Some(hyphen as int),
            forall|k: int| 0 <= k < i ==> is_project_char(#[trigger] input@[k]),
        decreases hyphen - i,
    {
        let c: char = input[i];
        if !(('A' <= c && c <= 'Z') || ('0' <= c && c <= '9') || c == '_') {
            assert(!is_project_char(input@[i as int]));
            return false;
        }
        i += 1;
    }
    i = hyphen + 1;
    while i < input.len()
        invariant
            hyphen < i <= input@.len(),
            last_hyphen(input@, input@.len() as int) == Some(hyphen as int),
            forall|k: int| hyphen < k < i ==> is_ascii_digit(#[trigger] input@[k]),
        decreases input@.len() - i,
    {
        let c: char = input[i];
        if !('0' <= c && c <= '9') {
            assert(!is_ascii_digit(input@[i as int]));
            return false;
        }
        i += 1;
    }
    true
}

fn holds_whitespace(chars: &[char]) -> (b: bool)
    ensures
        b == has_whitespace(chars@),
{
    let mut i: usize = 0;
    while i < chars.len()
        invariant
            i <= chars@.len(),
            forall|k: int| 0 <= k < i ==> !is_whitespace(#[trigger] chars@[k]),
        decreases chars@.len() - i,
    {
        if whitespace_char(chars[i]) {
            assert(is_whitespace(chars@[i as int]));
            return true;
        }
        i += 1;
    }
    false
}

/// Whether a result says what a text refers to.
pub open spec fn says(result: Result<IssueLink, IssueError>, parsed: Parsed, input: Seq<char>) -> bool {
    match result {
        Ok(link) => parsed == Parsed::Link(link@),
        Err(IssueError::InvalidNumber(text)) => parsed is InvalidNumber && text@ == input,
        Err(IssueError::UnsupportedGitHubUrl(text)) => parsed is UnsupportedGitHubUrl && text@
            == input,
        Err(IssueError::UnsupportedUrl(text)) => parsed is UnsupportedUrl && text@ == input,
        Err(IssueError::Unknown(text)) => parsed is Unknown && text@ == input,
    }
}

fn parse_github_url(input: &[char], rest: &[char]) -> (result: Result<IssueLink, IssueError>)
    ensures
        says(result, github_url_issue(rest@), input@),
{
    let parts = pieces(trimmed_end_of(cut_query(rest), CharClass::Exactly('/')), '/');
    let ghost views = pieces_of(trim_end_of(without_query(rest@), CharClass::Exactly('/')), '/');
    assert(views.len() == parts@.len());
    if parts.len() != 4 {
        return Err(IssueError::UnsupportedGitHubUrl(text_of(input)));
    }
    assert(views[0] == parts@[0]@ && views[1] == parts@[1]@ && views[2] == parts@[2]@ && views[3]
        == parts@[3]@);
    if !is_text(parts[2].as_slice(), "issues") {
        return Err(IssueError::UnsupportedGitHubUrl(text_of(input)));
    }
    match number_in(parts[3].as_slice()) {
        Some(number) => {
            let mut repo: Vec<char> = Vec::new();
            extend(&mut repo, parts[0].as_slice());
            extend_text(&mut repo, "/");
            extend(&mut repo, parts[1].as_slice());
            assert(repo@ =~= views[0] + "/"@ + views[1]);
            let repo = text_of(repo.as_slice());
            Ok(IssueLink::from_reference(IssueRef::GitHub { repo, number }))
        },
        None => Err(IssueError::InvalidNumber(text_of(input))),
    }
}

fn parse_backlog_url(input: &[char]) -> (result: Result<IssueLink, IssueError>)
    ensures
        says(result, backlog_url_issue(without_scheme(input@)), input@),
{
    let mark = chars_of("://");
    proof {
        reveal_strlit("://");
    }
    let length = input.len();
    let address = match find(input, 0, mark.as_slice()) {
        Some(at) => {
            let rest = slice_subrange(input, at + 3, length);
            assert(rest@ =~= input@.skip(at + 3));
            match find(rest, 0, mark.as_slice()) {
                Some(end) => slice_subrange(rest, 0, end),
                None => rest,
            }
        },
        None => {
            let none = slice_subrange(input, 0, 0);
            assert(none@ =~= seq![]);
            none
        },
    };
    assert(address@ =~= without_scheme(input@));
    let segments = pieces(address, '/');
    let ghost views = pieces_of(address@, '/');
    assert(views.len() == segments@.len());
    if segments.len() >= 3 {
        assert(views[0] == segments@[0]@ && views[1] == segments@[1]@ && views[2]
            == segments@[2]@);
        let key = cut_query(segments[2].as_slice());
        if is_text(segments[1].as_slice(), "view") && issue_key(key) {
            let mut url = chars_of("https://");
            extend(&mut url, segments[0].as_slice());
            extend_text(&mut url, "/view/");
            extend(&mut url, key);
            let mut link = IssueLink::from_reference(IssueRef::Backlog { issue_key: text_of(key) });
            link.url = Some(text_of(url.as_slice()));
            return Ok(link);
        }
    }
    Err(IssueError::UnsupportedUrl(text_of(input)))
}

/// Reads a reference to an issue. An error holds the text without the white
/// space around it.
pub fn parse_issue_ref(input: &str) -> (result: Result<IssueLink, IssueError>)
    ensures
        says(result, issue_in(input@), trim(input@)),
{
    let chars = chars_of(input);
    let input = trimmed(chars.as_slice());
    proof {
        reveal_strlit("https://github.com/");
    }
    if starts_with_text(input, "https://github.com/") {
        let rest = slice_subrange(input, 19, input.len());
        assert(rest@ =~= input@.skip(19));
        return parse_github_url(input, rest);
    }
    if starts_with_text(input, "https://") || starts_with_text(input, "http://") {
        return parse_backlog_url(input);
    }
    let hash = seek_char(input, 0, '#');
    if hash < input.len() {
        let repo = slice_subrange(input, 0, hash);
        assert(repo@ =~= input@.take(hash as int));
        let parts = pieces(repo, '/');
        assert(pieces_of(repo@, '/').len() == parts@.len());
        if parts.len() == 2 && !holds_whitespace(repo) {
            let digits = slice_subrange(input, hash + 1, input.len());
            assert(digits@ =~= input@.skip(hash + 1));
            return match number_in(digits) {
                Some(number) => Ok(
                    IssueLink::from_reference(IssueRef::GitHub { repo: text_of(repo), number }),
                ),
                None => Err(IssueError::InvalidNumber(text_of(input))),
            };
        }
    }
    if issue_key(input) {
        return Ok(
            IssueLink::from_reference(IssueRef::Backlog { issue_key: text_of(input) }),
        );
    }
    Err(IssueError::Unknown(text_of(input)))
}

impl IssueError {
    pub open spec fn text(self) -> Seq<char> {
        match self {
            IssueError::InvalidNumber(input) => "invalid issue number in "@ + quoted(input@),
            IssueError::UnsupportedGitHubUrl(input) =>
                "unsupported GitHub URL (expected .../issues/<number>): "@ + input@,
            IssueError::UnsupportedUrl(input) => "unsupported issue URL: "@ + input@,
            IssueError::Unknown(input) => "cannot parse issue reference "@ + quoted(input@)
                + " (expected an issue URL, owner/repo#123, or a Backlog key like PROJ-198)"@,
        }
    }

    /// What to tell the user.
    pub fn message(&self) -> (message: String)
        ensures
            message@ == self.text(),
    {
        let mut chars: Vec<char> = Vec::new();
        match self {
            IssueError::InvalidNumber(input) => {
                extend_text(&mut chars, "invalid issue number in ");
                extend_text(&mut chars, debug_text(input.as_str()).as_str());
            },
            IssueError::UnsupportedGitHubUrl(input) => {
                extend_text(&mut chars, "unsupported GitHub URL (expected .../issues/<number>): ");
                extend_text(&mut chars, input.as_str());
            },
            IssueError::UnsupportedUrl(input) => {
                extend_text(&mut chars, "unsupported issue URL: ");
                extend_text(&mut chars, input.as_str());
            },
            IssueError::Unknown(input) => {
                extend_text(&mut chars, "cannot parse issue reference ");
                extend_text(&mut chars, debug_text(input.as_str()).as_str());
                extend_text(
                    &mut chars,
                    " (expected an issue URL, owner/repo#123, or a Backlog key like PROJ-198)",
                );
            },
        }
        assert(chars@ =~= self.text());
        text_of(chars.as_slice())
    }
}

/// Whether a reference is one that can be typed: a repository is an owner and a
/// name without white space and hashes, and a key is a Backlog key.
pub open spec fn is_typeable(reference: RefModel) -> bool {
    match reference {
        RefModel::GitHub { repo, .. } => pieces_of(repo, '/').len() == 2 && !has_whitespace(repo)
            && next_char(repo, 0, '#') == repo.len(),
        RefModel::Backlog { issue_key } => is_issue_key(issue_key),
    }
}

proof fn lemma_last_hyphen(s: Seq<char>, to: int)
    requires
        0 <= to <= s.len(),
    ensures
        last_hyphen(s, to) matches Some(at) ==> 0 <= at < to && s[at] == '-',
    decreases to,
{
    if to > 0 && s[to - 1] != '-' {
        lemma_last_hyphen(s, to - 1);
    }
}

/// A text that a scheme begins has at least two slashes next to each other, so
/// it is parted into more than two pieces.
proof fn lemma_scheme_pieces(s: Seq<char>, at: int)
    requires
        0 <= at,
        at + 2 <= s.len(),
        s[at] == '/',
        s[at + 1] == '/',
        forall|k: int| 0 <= k < at ==> #[trigger] s[k] != '/',
    ensures
        pieces_of(s, '/').len() >= 3,
{
    lemma_next_char_is(s, 0, '/', at);
    lemma_next_char_is(s, at + 1, '/', at + 1);
    let rest = pieces_from(s, at + 2, '/');
    assert(rest.len() >= 1) by {
        lemma_next_char(s, at + 2, '/');
    }
    assert(pieces_from(s, at + 1, '/') == seq![s.subrange(at + 1, at + 1)] + rest);
    assert(pieces_of(s, '/') == seq![s.subrange(0, at)] + pieces_from(s, at + 1, '/'));
}

/// The short label of a reference, read again, is the reference.
pub proof fn law_short_label_round_trip(reference: RefModel)
    requires
        is_typeable(reference),
    ensures
        issue_in(reference.short_label()) == Parsed::Link(reference.link()),
{
    reveal_strlit("https://github.com/");
    reveal_strlit("https://");
    reveal_strlit("http://");
    reveal_strlit("#");
    let label = reference.short_label();
    match reference {
        RefModel::GitHub { repo, number } => {
            let digits = decimal(number as nat);
            lemma_decimal_value(number as nat);
            lemma_next_char(repo, 0, '#');
            let hash = repo.len() as int;
            assert(label == repo + "#"@ + digits);
            assert(label[hash] == '#');
            assert forall|k: int| 0 <= k < hash implies #[trigger] label[k] != '#' by {
                assert(label[k] == repo[k]);
            }
            lemma_next_char_is(label, 0, '#', hash);
            assert(label.take(hash) =~= repo);
            assert(label.skip(hash + 1) =~= digits);
            assert(is_ascii_digit(digits[0]));
            assert(is_ascii_digit(digits[digits.len() - 1]));
            assert(parse_number(digits) == Some(number));
            // A repository without slashes would be one piece.
            if repo.len() == 0 {
                assert(pieces_of(repo, '/') =~= seq![repo.skip(0)]);
            }
            assert(!is_whitespace(repo[0]));
            assert(label[0] == repo[0]);
            assert(label.last() == digits.last());
            lemma_trim_keeps(label);
            if starts_with(label, "https://"@) || starts_with(label, "http://"@) {
                let at: int = if starts_with(label, "https://"@) {
                    6
                } else {
                    5
                };
                let scheme = if at == 6 {
                    "https://"@
                } else {
                    "http://"@
                };
                assert(label.subrange(0, scheme.len() as int) == scheme);
                assert forall|k: int| 0 <= k < scheme.len() implies #[trigger] label[k]
                    == scheme[k] by {
                    assert(label.subrange(0, scheme.len() as int)[k] == scheme[k]);
                }
                if hash < scheme.len() {
                    assert(label[hash] == scheme[hash]);
                }
                assert forall|k: int| 0 <= k < at implies #[trigger] repo[k] != '/' by {
                    assert(label[k] == repo[k]);
                }
                assert(repo[at] == label[at] && repo[at + 1] == label[at + 1]);
                lemma_scheme_pieces(repo, at);
            }
            if starts_with(label, "https://github.com/"@) {
                assert(label.subrange(0, 8) =~= label.subrange(0, 19).subrange(0, 8));
                assert(starts_with(label, "https://"@)) by {
                    assert(label.subrange(0, 8) =~= "https://"@);
                }
            }
        },
        RefModel::Backlog { issue_key } => {
            let n = issue_key.len() as int;
            lemma_last_hyphen(issue_key, n);
            let hyphen = last_hyphen(issue_key, n)->0;
            assert(is_ascii_upper(issue_key[0]));
            assert(is_ascii_digit(issue_key[n - 1]));
            lemma_trim_keeps(issue_key);
            assert forall|k: int| 0 <= k < n implies #[trigger] issue_key[k] != '#' by {
                if k < hyphen {
                    assert(is_project_char(issue_key[k]));
                } else if k > hyphen {
                    assert(is_ascii_digit(issue_key[k]));
                }
            }
            lemma_next_char_is(issue_key, 0, '#', n);
            if starts_with(issue_key, "https://"@) {
                assert(issue_key.subrange(0, 8)[0] == 'h');
            }
            if starts_with(issue_key, "http://"@) {
                assert(issue_key.subrange(0, 7)[0] == 'h');
            }
            if starts_with(issue_key, "https://github.com/"@) {
                assert(issue_key.subrange(0, 19)[0] == 'h');
            }
        },
    }
}

proof fn lemma_last_hyphen_is(s: Seq<char>, at: int, to: int)
    requires
        0 <= at < to <= s.len(),
        s[at] == '-',
        forall|k: int| at < k < to ==> #[trigger] s[k] != '-',
    ensures
        last_hyphen(s, to) == Some(at),
    decreases to,
{
    if at < to - 1 {
        assert(s[to - 1] != '-');
        lemma_last_hyphen_is(s, at, to - 1);
    }
}

/// A Backlog key is a project, a hyphen and a number. The project begins with a
/// capital letter and holds capitals, digits and `_`.
pub proof fn law_issue_keys(project: Seq<char>, number: Seq<char>)
    requires
        forall|k: int| 0 <= k < number.len() ==> #[trigger] number[k] != '-',
    ensures
        is_issue_key(project + seq!['-'] + number) <==> {
            &&& project.len() > 0 && 'A' <= project[0] <= 'Z'
            &&& forall|k: int|
                0 <= k < project.len() ==> 'A' <= #[trigger] project[k] <= 'Z' || '0' <= project[k]
                    <= '9' || project[k] == '_'
            &&& number.len() > 0
            &&& forall|k: int| 0 <= k < number.len() ==> '0' <= #[trigger] number[k] <= '9'
        },
        !is_issue_key(number),
{
    let key = project + seq!['-'] + number;
    let at = project.len() as int;
    assert(key[at] == '-');
    assert forall|k: int| at < k < key.len() implies #[trigger] key[k] != '-' by {
        assert(key[k] == number[k - at - 1]);
    }
    lemma_last_hyphen_is(key, at, key.len() as int);
    lemma_last_hyphen(number, number.len() as int);
    if is_issue_key(key) {
        assert forall|k: int| 0 <= k < project.len() implies 'A' <= #[trigger] project[k] <= 'Z'
            || '0' <= project[k] <= '9' || project[k] == '_' by {
            assert(is_project_char(key[k]));
        }
        assert forall|k: int| 0 <= k < number.len() implies '0' <= #[trigger] number[k] <= '9' by {
            assert(is_ascii_digit(key[k + at + 1]));
        }
        assert(key[0] == project[0]);
    }
    if project.len() > 0 && 'A' <= project[0] <= 'Z' && (forall|k: int|
        0 <= k < project.len() ==> 'A' <= #[trigger] project[k] <= 'Z' || '0' <= project[k] <= '9'
            || project[k] == '_') && number.len() > 0 && (forall|k: int|
        0 <= k < number.len() ==> '0' <= #[trigger] number[k] <= '9') {
        assert(key[0] == project[0]);
        assert forall|k: int| 0 <= k < at implies is_project_char(#[trigger] key[k]) by {
            assert(key[k] == project[k]);
        }
        assert forall|k: int| at < k < key.len() implies is_ascii_digit(#[trigger] key[k]) by {
            assert(key[k] == number[k - at - 1]);
        }
    }
}

/// Whether a text can be a part of an address: it is not empty and holds nothing
/// that ends a part.
pub open spec fn is_address_part(s: Seq<char>) -> bool {
    s.len() > 0 && forall|k: int|
        0 <= k < s.len() ==> #[trigger] s[k] != '/' && s[k] != '?' && s[k] != '#'
}

proof fn lemma_without_query(base: Seq<char>, tail: Seq<char>)
    requires
        forall|k: int| 0 <= k < base.len() ==> #[trigger] base[k] != '?' && base[k] != '#',
        tail.len() > 0 ==> tail[0] == '?' || tail[0] == '#',
    ensures
        without_query(base + tail) == base,
{
    let s = base + tail;
    let n = base.len() as int;
    assert forall|k: int| 0 <= k < n implies #[trigger] s[k] != '?' && s[k] != '#' by {
        assert(s[k] == base[k]);
    }
    lemma_next_char(s, 0, '?');
    lemma_next_char(s, 0, '#');
    if tail.len() > 0 {
        assert(s[n] == tail[0]);
    }
    let question = next_char(s, 0, '?');
    let hash = next_char(s, 0, '#');
    assert(question >= n && hash >= n);
    assert(s.take(n) =~= base);
}

/// The address of an issue on GitHub names the repository and the number, whether
/// or not a slash, a query or an anchor stands behind it.
#[verifier::spinoff_prover]
#[verifier::rlimit(60)]
pub proof fn law_addresses_of_issues(
    owner: Seq<char>,
    name: Seq<char>,
    number: u64,
    slash: bool,
    tail: Seq<char>,
)
    requires
        is_address_part(owner),
        is_address_part(name),
        tail.len() > 0 ==> (tail[0] == '?' || tail[0] == '#') && !is_whitespace(tail.last()),
    ensures
        issue_in(
            "https://github.com/"@ + (owner + seq!['/'] + name + seq!['/'] + "issues"@ + seq!['/']
                + decimal(number as nat) + (if slash {
                seq!['/']
            } else {
                seq![]
            }) + tail),
        ) == Parsed::Link((RefModel::GitHub { repo: owner + "/"@ + name, number }).link()),
{
    reveal_strlit("https://github.com/");
    reveal_strlit("issues");
    reveal_strlit("/");
    let site = "https://github.com/"@;
    let digits = decimal(number as nat);
    lemma_decimal_value(number as nat);
    let issues = "issues"@;
    let path = owner + seq!['/'] + name + seq!['/'] + issues + seq!['/'] + digits;
    let end: Seq<char> = if slash {
        seq!['/']
    } else {
        seq![]
    };
    let base = path + end;
    let rest = base + tail;
    let url = site + rest;
    assert(site[0] == 'h' && url[0] == 'h');
    assert(rest.len() > 0);
    assert(is_ascii_digit(digits[digits.len() - 1]));
    assert(url.last() == rest.last());
    if tail.len() > 0 {
        assert(rest.last() == tail.last());
    } else if slash {
        assert(rest.last() == '/');
    } else {
        assert(rest.last() == digits.last());
    }
    lemma_trim_keeps(url);
    assert(url.subrange(0, site.len() as int) =~= site);
    assert(url.skip(site.len() as int) =~= rest);
    assert forall|k: int| 0 <= k < base.len() implies #[trigger] base[k] != '?' && base[k]
        != '#' by {
        let a = owner.len() as int;
        let b = a + 1 + name.len();
        let c = b + 1 + 6;
        if k < a {
            assert(base[k] == owner[k]);
        } else if a < k < b {
            assert(base[k] == name[k - a - 1]);
        } else if b < k < c {
            assert(base[k] == issues[k - b - 1]);
        } else if c < k < path.len() {
            assert(base[k] == digits[k - c - 1]);
            assert(is_ascii_digit(digits[k - c - 1]));
        }
    }
    lemma_without_query(base, tail);
    let slashes = CharClass::Exactly('/');
    assert(path.last() == digits.last());
    assert(base[path.len() - 1] == path.last());
    if slash {
        assert(base[path.len() as int] == '/');
    }
    assert(trim_end_of(base, slashes) =~= path) by {
        reveal_with_fuel(run_start, 3);
    }
    lemma_one_piece(owner, '/');
    lemma_pieces_push(owner, name, '/', 0);
    let two = owner + seq!['/'] + name;
    lemma_pieces_push(two, issues, '/', 0);
    let three = two + seq!['/'] + issues;
    assert forall|k: int| 0 <= k < digits.len() implies #[trigger] digits[k] != '/' by {
        assert(is_ascii_digit(digits[k]));
    }
    lemma_pieces_push(three, digits, '/', 0);
    let parts = pieces_of(path, '/');
    assert(parts =~= seq![owner, name, issues, digits]);
    assert(is_ascii_digit(digits[0]));
    assert(parse_number(digits) == Some(number));
}

/// The address of an issue on Backlog names its key and is kept, without what
/// stands behind the key.
#[verifier::spinoff_prover]
#[verifier::rlimit(60)]
pub proof fn law_addresses_of_keys(host: Seq<char>, key: Seq<char>, tail: Seq<char>)
    requires
        is_address_part(host),
        !host.contains(':'),
        host != "github.com"@,
        is_issue_key(key),
        tail.len() > 0 ==> (tail[0] == '?' || tail[0] == '#') && !is_whitespace(tail.last()),
        !tail.contains(':'),
        !tail.contains('/'),
    ensures
        issue_in("https://"@ + (host + seq!['/'] + "view"@ + seq!['/'] + (key + tail)))
            == Parsed::Link(
            LinkModel {
                url: Some("https://"@ + host + "/view/"@ + key),
                ..(RefModel::Backlog { issue_key: key }).link()
            },
        ),
{
    reveal_strlit("https://");
    reveal_strlit("https://github.com/");
    reveal_strlit("github.com");
    reveal_strlit("view");
    reveal_strlit("://");
    let scheme = "https://"@;
    let view = "view"@;
    let last = key + tail;
    let rest = host + seq!['/'] + view + seq!['/'] + last;
    let url = scheme + rest;
    lemma_last_hyphen(key, key.len() as int);
    let hyphen = last_hyphen(key, key.len() as int)->0;
    assert forall|k: int| 0 <= k < key.len() implies is_project_char(#[trigger] key[k]) || key[k]
        == '-' by {
        if k > hyphen {
            assert(is_ascii_digit(key[k]));
        }
    }
    assert forall|k: int| 0 <= k < host.len() implies #[trigger] host[k] != ':' by {
        assert(host.contains(host[k]));
    }
    assert forall|k: int| 0 <= k < tail.len() implies #[trigger] tail[k] != ':' && tail[k] != '/' by {
        assert(tail.contains(tail[k]));
    }
    assert(url[0] == 'h');
    assert(last.len() > 0);
    assert(url.last() == last.last());
    assert(is_ascii_digit(key[key.len() - 1]));
    if tail.len() > 0 {
        assert(last.last() == tail.last());
    } else {
        assert(last.last() == key.last());
    }
    lemma_trim_keeps(url);
    assert(url.subrange(0, 8) =~= scheme);
    if starts_with(url, "https://github.com/"@) {
        let site = "https://github.com/"@;
        assert(url.subrange(0, 19) == site);
        assert forall|k: int| 0 <= k < 19 implies #[trigger] url[k] == site[k] by {
            assert(url.subrange(0, 19)[k] == site[k]);
        }
        assert(url[18] == '/');
        if host.len() < 10 {
            assert(url[8 + host.len() as int] == '/');
        } else if host.len() > 10 {
            assert(url[18] == host[10]);
        }
        assert(host =~= "github.com"@) by {
            assert forall|k: int| 0 <= k < 10 implies host[k] == "github.com"@[k] by {
                assert(url[8 + k] == host[k]);
            }
        }
    }
    lemma_find_from(url, 0, "://"@);
    assert(url.subrange(5, 8) =~= "://"@);
    assert(occurs_at(url, 5, "://"@));
    let at = find_from(url, 0, "://"@)->0;
    if at < 5 {
        assert(url.subrange(at, at + 3)[0] == ':');
        assert(url[at] == scheme[at]);
    }
    assert(url.skip(8) =~= rest);
    lemma_find_from(rest, 0, "://"@);
    if let Some(k) = find_from(rest, 0, "://"@) {
        assert(rest.subrange(k, k + 3)[0] == ':');
        let a = host.len() as int;
        let b = a + 5;
        if k < a {
            assert(rest[k] == host[k]);
        } else if a < k < b {
            assert(rest[k] == view[k - a - 1]);
        } else if k > b {
            let i = k - b - 1;
            assert(rest[k] == last[i]);
            if i < key.len() {
                assert(is_project_char(key[i]) || key[i] == '-');
            } else {
                assert(last[i] == tail[i - key.len()]);
            }
        }
    }
    assert(without_scheme(url) == rest);
    lemma_one_piece(host, '/');
    lemma_pieces_push(host, view, '/', 0);
    assert forall|k: int| 0 <= k < last.len() implies #[trigger] last[k] != '/' by {
        if k < key.len() {
            assert(is_project_char(key[k]) || key[k] == '-');
        } else {
            assert(last[k] == tail[k - key.len()]);
        }
    }
    lemma_pieces_push(host + seq!['/'] + view, last, '/', 0);
    let segments = pieces_of(rest, '/');
    assert(segments =~= seq![host, view, last]);
    assert forall|k: int| 0 <= k < key.len() implies #[trigger] key[k] != '?' && key[k] != '#' by {
        assert(is_project_char(key[k]) || key[k] == '-');
    }
    lemma_without_query(key, tail);
}

/// A word that is no address and holds neither a hash nor a hyphen refers to no
/// issue.
pub proof fn law_words_are_no_issues(input: Seq<char>)
    requires
        input.len() > 0,
        !is_whitespace(input[0]) && !is_whitespace(input.last()),
        input[0] != 'h',
        !input.contains('#'),
        !input.contains('-'),
    ensures
        issue_in(input) is Unknown,
{
    reveal_strlit("https://github.com/");
    reveal_strlit("https://");
    reveal_strlit("http://");
    lemma_trim_keeps(input);
    assert forall|k: int| 0 <= k < input.len() implies #[trigger] input[k] != '#' && input[k]
        != '-' by {
        assert(input.contains(input[k]));
    }
    if starts_with(input, "https://github.com/"@) {
        assert(input.subrange(0, 19)[0] == 'h');
    }
    if starts_with(input, "https://"@) {
        assert(input.subrange(0, 8)[0] == 'h');
    }
    if starts_with(input, "http://"@) {
        assert(input.subrange(0, 7)[0] == 'h');
    }
    lemma_next_char_is(input, 0, '#', input.len() as int);
    lemma_last_hyphen(input, input.len() as int);
}

/// The address under which an issue on GitHub is shown leads back to it.
pub proof fn law_address_of_a_link(owner: Seq<char>, name: Seq<char>, number: u64)
    requires
        is_address_part(owner),
        is_address_part(name),
    ensures
        ({
            let reference = RefModel::GitHub { repo: owner + "/"@ + name, number };
            &&& reference.link().url is Some
            &&& issue_in(reference.link().url->0) == Parsed::Link(reference.link())
            &&& reference.link().reference == reference
            &&& reference.link().title is None && reference.link().state is None
        }),
{
    reveal_strlit("/");
    reveal_strlit("/issues/");
    reveal_strlit("issues");
    let digits = decimal(number as nat);
    law_addresses_of_issues(owner, name, number, false, seq![]);
    assert("https://github.com/"@ + (owner + "/"@ + name) + "/issues/"@ + digits
        =~= "https://github.com/"@ + (owner + seq!['/'] + name + seq!['/'] + "issues"@ + seq!['/']
        + digits + seq![] + seq![]));
}

} // verus!
