//! Messages between the command line and the running application.
//!
//! A message is either a path as plain text or a JSON object. The percentages
//! of rate limits are floats, so they are read where they are shown.

use serde_json::Value;

use vstd::prelude::*;
use vstd::utf8::{decode_utf8, encode_scalar, encode_utf8, has_width_1_encoding, valid_utf8};

use crate::json::{
    field_of, is_nested, is_plain, is_read_as, json_bool, json_clone, json_field, json_from_bool,
    json_from_numbers, json_from_text, json_from_texts, json_i64, json_object, json_parse,
    json_read, json_set, json_text, json_view, json_write, law_fields_are_read_back,
    law_plain_values_are_read_back, number_list, numbers_at, numbers_before, numbers_field,
    signed_of, text_at, text_field, text_list, texts_at, texts_before, texts_field, Json,
};
use crate::labels::{first_chars, truncate_string};
use crate::questionnaire::round_trip::lemma_trim_keeps;
use crate::text::{
    chars_of, decimal, is_ascii_digit, is_whitespace, lemma_decimal_value, lemma_run_start,
    number_in, parse_number, run_start, same_text, string_models, text_model, trim, trim_end_of,
    trim_start_of, trimmed, CharClass,
};
use crate::urls::utf8_text;

verus! {

/// What a pane shows.
#[derive(Clone, Copy, Debug, PartialEq, Eq, Structural)]
pub enum PaneContentType {
    Terminal,
    Diff,
    BranchDiff,
    GitStatus,
    ProjectSearch,
    FileBrowser,
    GitGraph,
}

/// On which side of a pane a new one is put.
#[derive(Clone, Copy, Debug, PartialEq, Eq, Structural)]
pub enum SplitDirection {
    Up,
    Down,
    Left,
    Right,
}

/// What a hook of a session tells.
#[derive(Clone, Copy, Debug, PartialEq, Eq, Structural)]
pub enum ClaudeHookEvent {
    SessionStart,
    Stop,
    Notification,
    UserPromptSubmit,
    PermissionRequest,
    PostToolUse,
    PostToolUseFailure,
}

#[derive(Debug, PartialEq)]
pub enum IpcMessage {
    WorkspacePath(String),
    ClaudeSessionStart { session_id: String, ancestor_pids: Vec<u32> },
    ClaudeStop { session_id: String, ancestor_pids: Vec<u32>, title: String },
    ClaudeNotification { session_id: String, ancestor_pids: Vec<u32>, title: String },
    ClaudeUserPromptSubmit { session_id: String, ancestor_pids: Vec<u32>, prompt: String },
    ClaudePermissionRequest { session_id: String, ancestor_pids: Vec<u32> },
    ClaudePostToolUse { session_id: String, ancestor_pids: Vec<u32> },
    PaneSplit {
        direction: SplitDirection,
        content_type: PaneContentType,
        keep_focus: bool,
        command: Vec<String>,
    },
    TabNew { content_type: PaneContentType, command: Vec<String> },
    ChangeTheme { name: String },
    ClaudeStatusline { five_hour_resets_at: i64, seven_day_resets_at: i64 },
}

/// What an [`IpcMessage`] stands for.
pub enum MessageModel {
    WorkspacePath(Seq<char>),
    ClaudeSessionStart { session_id: Seq<char>, ancestor_pids: Seq<u32> },
    ClaudeStop { session_id: Seq<char>, ancestor_pids: Seq<u32>, title: Seq<char> },
    ClaudeNotification { session_id: Seq<char>, ancestor_pids: Seq<u32>, title: Seq<char> },
    ClaudeUserPromptSubmit { session_id: Seq<char>, ancestor_pids: Seq<u32>, prompt: Seq<char> },
    ClaudePermissionRequest { session_id: Seq<char>, ancestor_pids: Seq<u32> },
    ClaudePostToolUse { session_id: Seq<char>, ancestor_pids: Seq<u32> },
    PaneSplit {
        direction: SplitDirection,
        content_type: PaneContentType,
        keep_focus: bool,
        command: Seq<Seq<char>>,
    },
    TabNew { content_type: PaneContentType, command: Seq<Seq<char>> },
    ChangeTheme { name: Seq<char> },
    ClaudeStatusline { five_hour_resets_at: i64, seven_day_resets_at: i64 },
}

impl View for IpcMessage {
    type V = MessageModel;

    open spec fn view(&self) -> MessageModel {
        match self {
            IpcMessage::WorkspacePath(path) => MessageModel::WorkspacePath(path@),
            IpcMessage::ClaudeSessionStart {
                session_id,
                ancestor_pids,
            } => MessageModel::ClaudeSessionStart {
                session_id: session_id@,
                ancestor_pids: ancestor_pids@,
            },
            IpcMessage::ClaudeStop { session_id, ancestor_pids, title } => MessageModel::ClaudeStop {
                session_id: session_id@,
                ancestor_pids: ancestor_pids@,
                title: title@,
            },
            IpcMessage::ClaudeNotification {
                session_id,
                ancestor_pids,
                title,
            } => MessageModel::ClaudeNotification {
                session_id: session_id@,
                ancestor_pids: ancestor_pids@,
                title: title@,
            },
            IpcMessage::ClaudeUserPromptSubmit {
                session_id,
                ancestor_pids,
                prompt,
            } => MessageModel::ClaudeUserPromptSubmit {
                session_id: session_id@,
                ancestor_pids: ancestor_pids@,
                prompt: prompt@,
            },
            IpcMessage::ClaudePermissionRequest {
                session_id,
                ancestor_pids,
            } => MessageModel::ClaudePermissionRequest {
                session_id: session_id@,
                ancestor_pids: ancestor_pids@,
            },
            IpcMessage::ClaudePostToolUse {
                session_id,
                ancestor_pids,
            } => MessageModel::ClaudePostToolUse {
                session_id: session_id@,
                ancestor_pids: ancestor_pids@,
            },
            IpcMessage::PaneSplit {
                direction,
                content_type,
                keep_focus,
                command,
            } => MessageModel::PaneSplit {
                direction: *direction,
                content_type: *content_type,
                keep_focus: *keep_focus,
                command: string_models(command@),
            },
            IpcMessage::TabNew { content_type, command } => MessageModel::TabNew {
                content_type: *content_type,
                command: string_models(command@),
            },
            IpcMessage::ChangeTheme { name } => MessageModel::ChangeTheme { name: name@ },
            IpcMessage::ClaudeStatusline {
                five_hour_resets_at,
                seven_day_resets_at,
            } => MessageModel::ClaudeStatusline {
                five_hour_resets_at: *five_hour_resets_at,
                seven_day_resets_at: *seven_day_resets_at,
            },
        }
    }
}

pub open spec fn direction_text(direction: SplitDirection) -> Seq<char> {
    match direction {
        SplitDirection::Right => "right"@,
        SplitDirection::Left => "left"@,
        SplitDirection::Down => "down"@,
        SplitDirection::Up => "up"@,
    }
}

pub open spec fn direction_in(text: Seq<char>) -> Option<SplitDirection> {
    if text == "right"@ {
        Some(SplitDirection::Right)
    } else if text == "left"@ {
        Some(SplitDirection::Left)
    } else if text == "down"@ {
        Some(SplitDirection::Down)
    } else if text == "up"@ {
        Some(SplitDirection::Up)
    } else {
        None
    }
}

/// What a pane shows, as a message names it. A file browser has no name.
pub open spec fn content_text(content: PaneContentType) -> Option<Seq<char>> {
    match content {
        PaneContentType::Terminal => Some("terminal"@),
        PaneContentType::Diff => Some("diff"@),
        PaneContentType::BranchDiff => Some("branch-diff"@),
        PaneContentType::GitStatus => Some("git-status"@),
        PaneContentType::ProjectSearch => Some("project-search"@),
        PaneContentType::GitGraph => Some("git-graph"@),
        PaneContentType::FileBrowser => None,
    }
}

pub open spec fn content_in(text: Seq<char>) -> Option<PaneContentType> {
    if text == "terminal"@ {
        Some(PaneContentType::Terminal)
    } else if text == "diff"@ {
        Some(PaneContentType::Diff)
    } else if text == "branch-diff"@ {
        Some(PaneContentType::BranchDiff)
    } else if text == "git-status"@ {
        Some(PaneContentType::GitStatus)
    } else if text == "project-search"@ {
        Some(PaneContentType::ProjectSearch)
    } else if text == "git-graph"@ {
        Some(PaneContentType::GitGraph)
    } else {
        None
    }
}

/// The direction in which a pane is split by default, downwards, or to the
/// right, and before or behind.
pub open spec fn direction_of(horizontal: bool, before: bool) -> SplitDirection {
    match (horizontal, before) {
        (true, true) => SplitDirection::Left,
        (true, false) => SplitDirection::Right,
        (false, true) => SplitDirection::Up,
        (false, false) => SplitDirection::Down,
    }
}

pub fn split_direction(horizontal: bool, before: bool) -> (direction: SplitDirection)
    ensures
        direction == direction_of(horizontal, before),
{
    if horizontal {
        if before {
            SplitDirection::Left
        } else {
            SplitDirection::Right
        }
    } else if before {
        SplitDirection::Up
    } else {
        SplitDirection::Down
    }
}

fn parse_direction(text: &str) -> (direction: Option<SplitDirection>)
    ensures
        direction == direction_in(text@),
{
    if same_text(text, "right") {
        Some(SplitDirection::Right)
    } else if same_text(text, "left") {
        Some(SplitDirection::Left)
    } else if same_text(text, "down") {
        Some(SplitDirection::Down)
    } else if same_text(text, "up") {
        Some(SplitDirection::Up)
    } else {
        None
    }
}

fn parse_content(text: &str) -> (content: Option<PaneContentType>)
    ensures
        content == content_in(text@),
{
    if same_text(text, "terminal") {
        Some(PaneContentType::Terminal)
    } else if same_text(text, "diff") {
        Some(PaneContentType::Diff)
    } else if same_text(text, "branch-diff") {
        Some(PaneContentType::BranchDiff)
    } else if same_text(text, "git-status") {
        Some(PaneContentType::GitStatus)
    } else if same_text(text, "project-search") {
        Some(PaneContentType::ProjectSearch)
    } else if same_text(text, "git-graph") {
        Some(PaneContentType::GitGraph)
    } else {
        None
    }
}

/// A text in a field, or nothing.
pub open spec fn text_or_empty(json: Json, key: Seq<char>) -> Seq<char> {
    match text_field(json, key) {
        Some(text) => text,
        None => seq![],
    }
}

/// A direction in a field.
pub open spec fn direction_field(json: Json) -> Option<SplitDirection> {
    match text_field(json, "direction"@) {
        Some(text) => direction_in(text),
        None => None,
    }
}

/// What a pane shows, in a field.
pub open spec fn content_field(json: Json) -> Option<PaneContentType> {
    match text_field(json, "content_type"@) {
        Some(text) => content_in(text),
        None => None,
    }
}

/// Whether the focus stays, in a field.
pub open spec fn keep_focus_field(json: Json) -> bool {
    field_of(json, "keep_focus"@) == Some(Json::Bool(true))
}

/// When a limit is reset, in the field for the limit.
pub open spec fn resets_field(json: Json, limit: Seq<char>) -> i64 {
    let limits = field_of(json, "rate_limits"@);
    let own = match limits {
        Some(limits) => field_of(limits, limit),
        None => None,
    };
    let resets = match own {
        Some(own) => field_of(own, "resets_at"@),
        None => None,
    };
    match resets {
        Some(resets) => match signed_of(resets) {
            Some(number) => number,
            None => 0,
        },
        None => 0,
    }
}

/// The message that a JSON value is; `None` where it is none.
pub open spec fn message_in(json: Json) -> Option<MessageModel> {
    let session_id = text_or_empty(json, "session_id"@);
    let ancestor_pids = numbers_field(json, "ancestor_pids"@);
    let title = text_or_empty(json, "title"@);
    let prompt = text_or_empty(json, "prompt"@);
    let command = texts_field(json, "command"@);
    let name = text_or_empty(json, "name"@);
    match text_field(json, "type"@) {
        Some(kind) => if kind == "claude_session_start"@ {
            Some(MessageModel::ClaudeSessionStart { session_id, ancestor_pids })
        } else if kind == "claude_stop"@ {
            Some(MessageModel::ClaudeStop { session_id, ancestor_pids, title })
        } else if kind == "claude_notification"@ {
            Some(MessageModel::ClaudeNotification { session_id, ancestor_pids, title })
        } else if kind == "claude_user_prompt_submit"@ {
            Some(MessageModel::ClaudeUserPromptSubmit { session_id, ancestor_pids, prompt })
        } else if kind == "claude_permission_request"@ {
            Some(MessageModel::ClaudePermissionRequest { session_id, ancestor_pids })
        } else if kind == "claude_post_tool_use"@ {
            Some(MessageModel::ClaudePostToolUse { session_id, ancestor_pids })
        } else if kind == "pane_split"@ {
            match (direction_field(json), content_field(json)) {
                (Some(direction), Some(content_type)) => Some(
                    MessageModel::PaneSplit {
                        direction,
                        content_type,
                        keep_focus: keep_focus_field(json),
                        command,
                    },
                ),
                _ => None,
            }
        } else if kind == "claude_statusline"@ {
            Some(
                MessageModel::ClaudeStatusline {
                    five_hour_resets_at: resets_field(json, "five_hour"@),
                    seven_day_resets_at: resets_field(json, "seven_day"@),
                },
            )
        } else if kind == "tab_new"@ {
            match content_field(json) {
                Some(content_type) => Some(MessageModel::TabNew { content_type, command }),
                None => None,
            }
        } else if kind == "change_theme"@ {
            if name.len() > 0 {
                Some(MessageModel::ChangeTheme { name })
            } else {
                None
            }
        } else {
            None
        },
        None => None,
    }
}

fn owned_text(value: &Value, key: &str) -> (text: String)
    ensures
        text@ == text_or_empty(json_view(*value), key@),
{
    match text_at(value, key) {
        Some(text) => text.to_string(),
        None => String::new(),
    }
}

fn content_at(value: &Value) -> (content: Option<PaneContentType>)
    ensures
        content == content_field(json_view(*value)),
{
    match text_at(value, "content_type") {
        Some(text) => parse_content(text),
        None => None,
    }
}

fn resets_at(value: &Value, limit: &str) -> (resets: i64)
    ensures
        resets == resets_field(json_view(*value), limit@),
{
    if let Some(limits) = json_field(value, "rate_limits") {
        if let Some(own) = json_field(limits, limit) {
            if let Some(resets) = json_field(own, "resets_at") {
                if let Some(number) = json_i64(resets) {
                    return number;
                }
            }
        }
    }
    0
}

/// The message that a JSON value is.
pub fn parse_message(value: &Value) -> (message: Option<IpcMessage>)
    ensures
        match message {
            Some(message) => message_in(json_view(*value)) == Some(message@),
            None => message_in(json_view(*value)) is None,
        },
{
    let kind = match text_at(value, "type") {
        Some(kind) => kind,
        None => {
            return None;
        },
    };
    let session_id = owned_text(value, "session_id");
    let ancestor_pids = numbers_at(value, "ancestor_pids");
    let title = owned_text(value, "title");
    let prompt = owned_text(value, "prompt");
    if same_text(kind, "claude_session_start") {
        Some(IpcMessage::ClaudeSessionStart { session_id, ancestor_pids })
    } else if same_text(kind, "claude_stop") {
        Some(IpcMessage::ClaudeStop { session_id, ancestor_pids, title })
    } else if same_text(kind, "claude_notification") {
        Some(IpcMessage::ClaudeNotification { session_id, ancestor_pids, title })
    } else if same_text(kind, "claude_user_prompt_submit") {
        Some(IpcMessage::ClaudeUserPromptSubmit { session_id, ancestor_pids, prompt })
    } else if same_text(kind, "claude_permission_request") {
        Some(IpcMessage::ClaudePermissionRequest { session_id, ancestor_pids })
    } else if same_text(kind, "claude_post_tool_use") {
        Some(IpcMessage::ClaudePostToolUse { session_id, ancestor_pids })
    } else if same_text(kind, "pane_split") {
        let direction = match text_at(value, "direction") {
            Some(text) => parse_direction(text),
            None => None,
        };
        let keep_focus = match json_field(value, "keep_focus") {
            Some(field) => match json_bool(field) {
                Some(keep) => keep,
                None => false,
            },
            None => false,
        };
        match (direction, content_at(value)) {
            (Some(direction), Some(content_type)) => Some(
                IpcMessage::PaneSplit {
                    direction,
                    content_type,
                    keep_focus,
                    command: texts_at(value, "command"),
                },
            ),
            _ => None,
        }
    } else if same_text(kind, "claude_statusline") {
        Some(
            IpcMessage::ClaudeStatusline {
                five_hour_resets_at: resets_at(value, "five_hour"),
                seven_day_resets_at: resets_at(value, "seven_day"),
            },
        )
    } else if same_text(kind, "tab_new") {
        match content_at(value) {
            Some(content_type) => Some(
                IpcMessage::TabNew { content_type, command: texts_at(value, "command") },
            ),
            None => None,
        }
    } else if same_text(kind, "change_theme") {
        let name = owned_text(value, "name");
        if name.as_str().is_empty() {
            None
        } else {
            Some(IpcMessage::ChangeTheme { name })
        }
    } else {
        None
    }
}

/// The message that bytes are: JSON where they begin with a brace, else a path.
pub open spec fn message_of_bytes(bytes: Seq<u8>) -> Option<MessageModel> {
    if bytes.len() > 0 && bytes[0] == 123 {
        match json_parse(bytes) {
            Some(json) => message_in(json),
            None => None,
        }
    } else if valid_utf8(bytes) {
        Some(MessageModel::WorkspacePath(decode_utf8(bytes)))
    } else {
        None
    }
}

/// The message that bytes are. What is no message is left aside.
pub fn decode_message(bytes: &[u8]) -> (message: Option<IpcMessage>)
    ensures
        match message {
            Some(message) => message_of_bytes(bytes@) == Some(message@),
            None => message_of_bytes(bytes@) is None,
        },
{
    if bytes.len() > 0 && bytes[0] == 123 {
        match json_read(bytes) {
            Some(value) => parse_message(&value),
            None => None,
        }
    } else {
        let copy = vstd::slice::slice_to_vec(bytes);
        match utf8_text(copy) {
            Some(path) => Some(IpcMessage::WorkspacePath(path)),
            None => None,
        }
    }
}

pub open spec fn hook_type(event: ClaudeHookEvent) -> Seq<char> {
    match event {
        ClaudeHookEvent::SessionStart => "claude_session_start"@,
        ClaudeHookEvent::Stop => "claude_stop"@,
        ClaudeHookEvent::Notification => "claude_notification"@,
        ClaudeHookEvent::UserPromptSubmit => "claude_user_prompt_submit"@,
        ClaudeHookEvent::PermissionRequest => "claude_permission_request"@,
        ClaudeHookEvent::PostToolUse => "claude_post_tool_use"@,
        ClaudeHookEvent::PostToolUseFailure => "claude_post_tool_use"@,
    }
}

fn hook_type_name(event: ClaudeHookEvent) -> (name: String)
    ensures
        name@ == hook_type(event),
{
    match event {
        ClaudeHookEvent::SessionStart => "claude_session_start".to_string(),
        ClaudeHookEvent::Stop => "claude_stop".to_string(),
        ClaudeHookEvent::Notification => "claude_notification".to_string(),
        ClaudeHookEvent::UserPromptSubmit => "claude_user_prompt_submit".to_string(),
        ClaudeHookEvent::PermissionRequest => "claude_permission_request".to_string(),
        ClaudeHookEvent::PostToolUse => "claude_post_tool_use".to_string(),
        ClaudeHookEvent::PostToolUseFailure => "claude_post_tool_use".to_string(),
    }
}

/// The title in what a hook was given: its title, or its message.
pub open spec fn hook_title(input: Json) -> Option<Seq<char>> {
    match text_field(input, "title"@) {
        Some(title) => Some(title),
        None => text_field(input, "message"@),
    }
}

/// The fields of the message that a hook sends. Title and prompt are cut to
/// five hundred characters, and left out where there are none.
pub open spec fn hook_fields(event: ClaudeHookEvent, input: Json, pids: Seq<u32>) -> Map<
    Seq<char>,
    Json,
> {
    let base = Map::empty().insert("type"@, Json::Text(hook_type(event))).insert(
        "session_id"@,
        Json::Text(text_or_empty(input, "session_id"@)),
    ).insert("ancestor_pids"@, number_list(pids));
    let titled = match hook_title(input) {
        Some(title) => base.insert("title"@, Json::Text(first_chars(title, 500))),
        None => base,
    };
    match text_field(input, "prompt"@) {
        Some(prompt) => titled.insert("prompt"@, Json::Text(first_chars(prompt, 500))),
        None => titled,
    }
}

/// What a hook was given, as JSON; nothing where it is none.
pub open spec fn hook_input(bytes: Seq<u8>) -> Json {
    match json_parse(bytes) {
        Some(json) => json,
        None => Json::Null,
    }
}

/// The message that a hook's message is read as.
pub open spec fn hook_sent(event: ClaudeHookEvent, input: Json, pids: Seq<u32>) -> MessageModel {
    let session_id = text_or_empty(input, "session_id"@);
    let ancestor_pids = pids;
    let title = match hook_title(input) {
        Some(title) => first_chars(title, 500),
        None => seq![],
    };
    let prompt = match text_field(input, "prompt"@) {
        Some(prompt) => first_chars(prompt, 500),
        None => seq![],
    };
    match event {
        ClaudeHookEvent::SessionStart => MessageModel::ClaudeSessionStart {
            session_id,
            ancestor_pids,
        },
        ClaudeHookEvent::Stop => MessageModel::ClaudeStop { session_id, ancestor_pids, title },
        ClaudeHookEvent::Notification => MessageModel::ClaudeNotification {
            session_id,
            ancestor_pids,
            title,
        },
        ClaudeHookEvent::UserPromptSubmit => MessageModel::ClaudeUserPromptSubmit {
            session_id,
            ancestor_pids,
            prompt,
        },
        ClaudeHookEvent::PermissionRequest => MessageModel::ClaudePermissionRequest {
            session_id,
            ancestor_pids,
        },
        ClaudeHookEvent::PostToolUse => MessageModel::ClaudePostToolUse {
            session_id,
            ancestor_pids,
        },
        ClaudeHookEvent::PostToolUseFailure => MessageModel::ClaudePostToolUse {
            session_id,
            ancestor_pids,
        },
    }
}

/// A text that begins with a brace is written with the brace as its first byte.
proof fn lemma_brace(text: Seq<char>)
    requires
        text.len() > 0,
        text[0] == '{',
    ensures
        encode_utf8(text).len() > 0,
        encode_utf8(text)[0] == 123,
{
    let scalar = '{' as u32;
    assert(encode_utf8(text) == encode_scalar(scalar) + encode_utf8(text.drop_first()));
    assert(has_width_1_encoding(scalar));
    assert((scalar & 0x7F) as u8 == 123) by (bit_vector)
        requires
            scalar == 123,
    ;
}

proof fn lemma_keys()
    ensures
        "type"@ != "session_id"@,
        "type"@ != "ancestor_pids"@,
        "type"@ != "title"@,
        "type"@ != "prompt"@,
        "type"@ != "direction"@,
        "type"@ != "content_type"@,
        "type"@ != "keep_focus"@,
        "type"@ != "command"@,
        "type"@ != "name"@,
        "session_id"@ != "ancestor_pids"@,
        "session_id"@ != "title"@,
        "session_id"@ != "prompt"@,
        "ancestor_pids"@ != "title"@,
        "ancestor_pids"@ != "prompt"@,
        "title"@ != "prompt"@,
        "direction"@ != "content_type"@,
        "direction"@ != "keep_focus"@,
        "direction"@ != "command"@,
        "content_type"@ != "keep_focus"@,
        "content_type"@ != "command"@,
        "keep_focus"@ != "command"@,
{
    reveal_strlit("type");
    assert("type"@.len() == 4);
    reveal_strlit("name");
    assert("name"@.len() == 4);
    reveal_strlit("session_id");
    assert("session_id"@.len() == 10);
    reveal_strlit("ancestor_pids");
    assert("ancestor_pids"@.len() == 13);
    reveal_strlit("title");
    assert("title"@.len() == 5);
    reveal_strlit("prompt");
    assert("prompt"@.len() == 6);
    reveal_strlit("direction");
    assert("direction"@.len() == 9);
    reveal_strlit("content_type");
    assert("content_type"@.len() == 12);
    reveal_strlit("keep_focus");
    assert("keep_focus"@.len() == 10);
    reveal_strlit("command");
    assert("command"@.len() == 7);
    assert("type"@[0] != "name"@[0]);
}

proof fn lemma_kinds()
    ensures
        "claude_stop"@ != "claude_session_start"@,
        "claude_notification"@ != "claude_session_start"@,
        "claude_notification"@ != "claude_stop"@,
        "claude_user_prompt_submit"@ != "claude_session_start"@,
        "claude_user_prompt_submit"@ != "claude_stop"@,
        "claude_user_prompt_submit"@ != "claude_notification"@,
        "claude_permission_request"@ != "claude_session_start"@,
        "claude_permission_request"@ != "claude_stop"@,
        "claude_permission_request"@ != "claude_notification"@,
        "claude_permission_request"@ != "claude_user_prompt_submit"@,
        "claude_post_tool_use"@ != "claude_session_start"@,
        "claude_post_tool_use"@ != "claude_stop"@,
        "claude_post_tool_use"@ != "claude_notification"@,
        "claude_post_tool_use"@ != "claude_user_prompt_submit"@,
        "claude_post_tool_use"@ != "claude_permission_request"@,
        !is_claude("pane_split"@),
        !is_claude("tab_new"@),
        !is_claude("change_theme"@),
        "tab_new"@ != "pane_split"@,
        "change_theme"@ != "pane_split"@,
        "change_theme"@ != "tab_new"@,
        is_claude("claude_statusline"@),
        is_claude("claude_session_start"@),
        is_claude("claude_stop"@),
        is_claude("claude_notification"@),
        is_claude("claude_user_prompt_submit"@),
        is_claude("claude_permission_request"@),
        is_claude("claude_post_tool_use"@),
{
    reveal_strlit("claude_session_start");
    assert("claude_session_start"@.len() == 20);
    reveal_strlit("claude_stop");
    assert("claude_stop"@.len() == 11);
    reveal_strlit("claude_notification");
    assert("claude_notification"@.len() == 19);
    reveal_strlit("claude_user_prompt_submit");
    assert("claude_user_prompt_submit"@.len() == 25);
    reveal_strlit("claude_permission_request");
    assert("claude_permission_request"@.len() == 25);
    reveal_strlit("claude_post_tool_use");
    assert("claude_post_tool_use"@.len() == 20);
    reveal_strlit("claude_statusline");
    assert("claude_statusline"@.len() == 17);
    reveal_strlit("pane_split");
    assert("pane_split"@.len() == 10);
    reveal_strlit("tab_new");
    assert("tab_new"@.len() == 7);
    reveal_strlit("change_theme");
    assert("change_theme"@.len() == 12);
    assert("claude_user_prompt_submit"@[7] != "claude_permission_request"@[7]);
    assert("claude_session_start"@[7] != "claude_post_tool_use"@[7]);
}

/// Whether the name of a kind of message is one of a session.
spec fn is_claude(kind: Seq<char>) -> bool {
    kind.len() > 2 && kind[0] == 'c' && kind[1] == 'l'
}

/// The numbers of a list of numbers are those it was made of.
proof fn lemma_numbers(numbers: Seq<u32>, n: int)
    requires
        0 <= n <= numbers.len(),
    ensures
        numbers_before(number_list(numbers)->List_0, n) == numbers.take(n),
    decreases n,
{
    if n > 0 {
        lemma_numbers(numbers, n - 1);
        assert(numbers.take(n) =~= numbers.take(n - 1).push(numbers[n - 1]));
    } else {
        assert(numbers.take(n) =~= seq![]);
    }
}

/// The texts of a list of texts are those it was made of.
proof fn lemma_texts(texts: Seq<String>, n: int)
    requires
        0 <= n <= texts.len(),
    ensures
        texts_before(text_list(texts)->List_0, n) == string_models(texts).take(n),
    decreases n,
{
    if n > 0 {
        lemma_texts(texts, n - 1);
        assert(string_models(texts).take(n) =~= string_models(texts).take(n - 1).push(
            texts[n - 1]@,
        ));
    } else {
        assert(string_models(texts).take(n) =~= seq![]);
    }
}

/// A hook's message is read as what it says.
proof fn lemma_hook_round_trip(event: ClaudeHookEvent, input: Json, pids: Seq<u32>)
    ensures
        is_plain(Json::Object(hook_fields(event, input, pids)), 127),
        message_in(Json::Object(hook_fields(event, input, pids))) == Some(
            hook_sent(event, input, pids),
        ),
{
    lemma_keys();
    lemma_kinds();
    reveal_with_fuel(is_plain, 4);
    lemma_numbers(pids, pids.len() as int);
    assert(pids.take(pids.len() as int) =~= pids);
    let message = Json::Object(hook_fields(event, input, pids));
    assert(text_field(message, "type"@) == Some(hook_type(event)));
    assert(text_or_empty(message, "session_id"@) == text_or_empty(input, "session_id"@));
    assert(numbers_field(message, "ancestor_pids"@) == pids);
}

/// A message that splits a pane is read as what it says.
proof fn lemma_split_round_trip(
    direction: SplitDirection,
    content: PaneContentType,
    keep_focus: bool,
    command: Seq<String>,
)
    requires
        content_text(content) is Some,
    ensures
        is_plain(
            Json::Object(split_fields(direction, content_text(content)->0, keep_focus, command)),
            127,
        ),
        message_in(
            Json::Object(split_fields(direction, content_text(content)->0, keep_focus, command)),
        ) == Some(
            MessageModel::PaneSplit {
                direction,
                content_type: content,
                keep_focus,
                command: string_models(command),
            },
        ),
{
    lemma_keys();
    lemma_kinds();
    lemma_names(direction, content);
    reveal_with_fuel(is_plain, 4);
    lemma_texts(command, command.len() as int);
    assert(string_models(command).take(command.len() as int) =~= string_models(command));
    let message = Json::Object(
        split_fields(direction, content_text(content)->0, keep_focus, command),
    );
    assert(text_field(message, "type"@) == Some("pane_split"@));
    assert(direction_field(message) == Some(direction));
    assert(content_field(message) == Some(content));
    assert(texts_field(message, "command"@) == string_models(command));
}

/// A message that adds a tab is read as what it says.
proof fn lemma_tab_round_trip(content: PaneContentType, command: Seq<String>)
    requires
        content_text(content) is Some,
    ensures
        is_plain(Json::Object(tab_fields(content_text(content)->0, command)), 127),
        message_in(Json::Object(tab_fields(content_text(content)->0, command))) == Some(
            MessageModel::TabNew { content_type: content, command: string_models(command) },
        ),
{
    lemma_keys();
    lemma_kinds();
    lemma_names(SplitDirection::Up, content);
    reveal_with_fuel(is_plain, 4);
    lemma_texts(command, command.len() as int);
    assert(string_models(command).take(command.len() as int) =~= string_models(command));
    let message = Json::Object(tab_fields(content_text(content)->0, command));
    assert(text_field(message, "type"@) == Some("tab_new"@));
    assert(content_field(message) == Some(content));
    assert(texts_field(message, "command"@) == string_models(command));
}

/// A message that changes the theme is read as what it says.
proof fn lemma_theme_round_trip(name: Seq<char>)
    ensures
        is_plain(Json::Object(theme_fields(name)), 127),
        message_in(Json::Object(theme_fields(name))) == if name.len() > 0 {
            Some(MessageModel::ChangeTheme { name })
        } else {
            None
        },
{
    lemma_keys();
    lemma_kinds();
    reveal_with_fuel(is_plain, 4);
    let message = Json::Object(theme_fields(name));
    assert(text_field(message, "type"@) == Some("change_theme"@));
    assert(text_or_empty(message, "name"@) == name);
}

/// A name is read as what it names.
proof fn lemma_names(direction: SplitDirection, content: PaneContentType)
    ensures
        direction_in(direction_text(direction)) == Some(direction),
        content_text(content) is Some ==> content_in(content_text(content)->0) == Some(content),
{
    reveal_strlit("right");
    assert("right"@.len() == 5);
    reveal_strlit("left");
    assert("left"@.len() == 4);
    reveal_strlit("down");
    assert("down"@.len() == 4);
    reveal_strlit("up");
    assert("up"@.len() == 2);
    assert("left"@[0] != "down"@[0]);
    reveal_strlit("terminal");
    assert("terminal"@.len() == 8);
    reveal_strlit("diff");
    assert("diff"@.len() == 4);
    reveal_strlit("branch-diff");
    assert("branch-diff"@.len() == 11);
    reveal_strlit("git-status");
    assert("git-status"@.len() == 10);
    reveal_strlit("project-search");
    assert("project-search"@.len() == 14);
    reveal_strlit("git-graph");
    assert("git-graph"@.len() == 9);
}

/// The message that a hook sends, given what it was given and the processes
/// above it.
pub fn hook_message(event: ClaudeHookEvent, bytes: &[u8], ancestor_pids: &Vec<u32>) -> (text:
    String)
    ensures
        ({
            let message = hook_fields(event, hook_input(bytes@), ancestor_pids@);
            &&& text@ == json_text(Json::Object(message))
            &&& message_of_bytes(encode_utf8(text@)) == Some(
                hook_sent(event, hook_input(bytes@), ancestor_pids@),
            )
        }),
{
    let mut message = json_object();
    json_set(&mut message, "type", json_from_text(hook_type_name(event)));
    let input = json_read(bytes);
    let (session_id, title, prompt): (String, Option<String>, Option<String>) = match &input {
        Some(value) => (
            owned_text(value, "session_id"),
            match text_at(value, "title") {
                Some(title) => Some(truncate_string(title, 500)),
                None => match text_at(value, "message") {
                    Some(message) => Some(truncate_string(message, 500)),
                    None => None,
                },
            },
            match text_at(value, "prompt") {
                Some(prompt) => Some(truncate_string(prompt, 500)),
                None => None,
            },
        ),
        None => (String::new(), None, None),
    };
    json_set(&mut message, "session_id", json_from_text(session_id));
    json_set(&mut message, "ancestor_pids", json_from_numbers(ancestor_pids));
    if let Some(title) = title {
        json_set(&mut message, "title", json_from_text(title));
    }
    if let Some(prompt) = prompt {
        json_set(&mut message, "prompt", json_from_text(prompt));
    }
    let text = json_write(&message);
    proof {
        let json = hook_input(bytes@);
        lemma_hook_round_trip(event, json, ancestor_pids@);
        lemma_brace(text@);
        law_plain_values_are_read_back(
            json_view(message),
            json_parse(encode_utf8(text@))->0,
            127,
        );
    }
    text
}

/// The fields of the message that splits a pane.
pub open spec fn split_fields(
    direction: SplitDirection,
    content: Seq<char>,
    keep_focus: bool,
    command: Seq<String>,
) -> Map<Seq<char>, Json> {
    Map::empty().insert("type"@, Json::Text("pane_split"@)).insert(
        "direction"@,
        Json::Text(direction_text(direction)),
    ).insert("content_type"@, Json::Text(content)).insert(
        "keep_focus"@,
        Json::Bool(keep_focus),
    ).insert("command"@, text_list(command))
}

/// The fields of the message that adds a tab.
pub open spec fn tab_fields(content: Seq<char>, command: Seq<String>) -> Map<Seq<char>, Json> {
    Map::empty().insert("type"@, Json::Text("tab_new"@)).insert(
        "content_type"@,
        Json::Text(content),
    ).insert("command"@, text_list(command))
}

/// The fields of the message that changes the theme.
pub open spec fn theme_fields(name: Seq<char>) -> Map<Seq<char>, Json> {
    Map::empty().insert("type"@, Json::Text("change_theme"@)).insert("name"@, Json::Text(name))
}

fn direction_name(direction: SplitDirection) -> (name: String)
    ensures
        name@ == direction_text(direction),
{
    match direction {
        SplitDirection::Right => "right".to_string(),
        SplitDirection::Left => "left".to_string(),
        SplitDirection::Down => "down".to_string(),
        SplitDirection::Up => "up".to_string(),
    }
}

fn content_name(content: PaneContentType) -> (name: Option<String>)
    ensures
        match name {
            Some(name) => content_text(content) == Some(name@),
            None => content_text(content) is None,
        },
{
    match content {
        PaneContentType::Terminal => Some("terminal".to_string()),
        PaneContentType::Diff => Some("diff".to_string()),
        PaneContentType::BranchDiff => Some("branch-diff".to_string()),
        PaneContentType::GitStatus => Some("git-status".to_string()),
        PaneContentType::ProjectSearch => Some("project-search".to_string()),
        PaneContentType::GitGraph => Some("git-graph".to_string()),
        PaneContentType::FileBrowser => None,
    }
}

/// The message that splits a pane. What has no name in a message cannot be
/// asked for.
pub fn pane_split_message(
    direction: SplitDirection,
    content: PaneContentType,
    keep_focus: bool,
    command: &Vec<String>,
) -> (text: Option<String>)
    ensures
        match text {
            Some(text) => {
                let message = split_fields(
                    direction,
                    content_text(content)->0,
                    keep_focus,
                    command@,
                );
                &&& content_text(content) is Some
                &&& text@ == json_text(Json::Object(message))
                &&& message_of_bytes(encode_utf8(text@)) == Some(
                    MessageModel::PaneSplit {
                        direction,
                        content_type: content,
                        keep_focus,
                        command: string_models(command@),
                    },
                )
            },
            None => content_text(content) is None,
        },
{
    let name = match content_name(content) {
        Some(name) => name,
        None => {
            return None;
        },
    };
    let mut message = json_object();
    json_set(&mut message, "type", json_from_text("pane_split".to_string()));
    json_set(&mut message, "direction", json_from_text(direction_name(direction)));
    json_set(&mut message, "content_type", json_from_text(name));
    json_set(&mut message, "keep_focus", json_from_bool(keep_focus));
    json_set(&mut message, "command", json_from_texts(command));
    let text = json_write(&message);
    proof {
        lemma_split_round_trip(direction, content, keep_focus, command@);
        lemma_brace(text@);
        law_plain_values_are_read_back(
            json_view(message),
            json_parse(encode_utf8(text@))->0,
            127,
        );
    }
    Some(text)
}

/// The message that adds a tab.
pub fn tab_new_message(content: PaneContentType, command: &Vec<String>) -> (text: Option<String>)
    ensures
        match text {
            Some(text) => {
                let message = tab_fields(content_text(content)->0, command@);
                &&& content_text(content) is Some
                &&& text@ == json_text(Json::Object(message))
                &&& message_of_bytes(encode_utf8(text@)) == Some(
                    MessageModel::TabNew {
                        content_type: content,
                        command: string_models(command@),
                    },
                )
            },
            None => content_text(content) is None,
        },
{
    let name = match content_name(content) {
        Some(name) => name,
        None => {
            return None;
        },
    };
    let mut message = json_object();
    json_set(&mut message, "type", json_from_text("tab_new".to_string()));
    json_set(&mut message, "content_type", json_from_text(name));
    json_set(&mut message, "command", json_from_texts(command));
    let text = json_write(&message);
    proof {
        lemma_tab_round_trip(content, command@);
        lemma_brace(text@);
        law_plain_values_are_read_back(
            json_view(message),
            json_parse(encode_utf8(text@))->0,
            127,
        );
    }
    Some(text)
}

/// The message that changes the theme.
pub fn change_theme_message(name: &str) -> (text: String)
    ensures
        text@ == json_text(Json::Object(theme_fields(name@))),
        message_of_bytes(encode_utf8(text@)) == if name@.len() > 0 {
            Some(MessageModel::ChangeTheme { name: name@ })
        } else {
            None
        },
{
    let mut message = json_object();
    json_set(&mut message, "type", json_from_text("change_theme".to_string()));
    json_set(&mut message, "name", json_from_text(name.to_string()));
    let text = json_write(&message);
    proof {
        lemma_theme_round_trip(name@);
        lemma_brace(text@);
        law_plain_values_are_read_back(
            json_view(message),
            json_parse(encode_utf8(text@))->0,
            127,
        );
    }
    text
}

/// The fields of the message with the rate limits of a status line.
pub open spec fn statusline_fields(limits: Json) -> Map<Seq<char>, Json> {
    Map::empty().insert("type"@, Json::Text("claude_statusline"@)).insert("rate_limits"@, limits)
}

/// When the limit under `key` is reset, among rate limits.
pub open spec fn reset_among(limits: Json, key: Seq<char>) -> i64 {
    resets_field(Json::Object(statusline_fields(limits)), key)
}

/// A limit is reset, among what was read, when it was.
proof fn lemma_resets_read(json: Json, read: Json, limit: Seq<char>)
    requires
        is_read_as(json, read, 127),
    ensures
        resets_field(read, limit) == resets_field(json, limit),
{
    law_fields_are_read_back(json, read, 127, "rate_limits"@);
    if let Some(limits) = field_of(json, "rate_limits"@) {
        let read_limits = field_of(read, "rate_limits"@)->0;
        law_fields_are_read_back(limits, read_limits, 126, limit);
        if let Some(own) = field_of(limits, limit) {
            let read_own = field_of(read_limits, limit)->0;
            law_fields_are_read_back(own, read_own, 125, "resets_at"@);
        }
    }
}

proof fn lemma_statusline_round_trip(limits: Json, read: Json)
    requires
        is_nested(limits, 126),
    ensures
        is_nested(Json::Object(statusline_fields(limits)), 127),
        is_read_as(Json::Object(statusline_fields(limits)), read, 127) ==> message_in(read) == Some(
            MessageModel::ClaudeStatusline {
                five_hour_resets_at: reset_among(limits, "five_hour"@),
                seven_day_resets_at: reset_among(limits, "seven_day"@),
            },
        ),
{
    reveal_strlit("claude_statusline");
    reveal_strlit("claude_session_start");
    reveal_strlit("claude_stop");
    reveal_strlit("claude_notification");
    reveal_strlit("claude_user_prompt_submit");
    reveal_strlit("claude_permission_request");
    reveal_strlit("claude_post_tool_use");
    reveal_strlit("pane_split");
    assert("claude_statusline"@.len() == 17);
    assert("claude_session_start"@.len() == 20);
    assert("claude_stop"@.len() == 11);
    assert("claude_notification"@.len() == 19);
    assert("claude_user_prompt_submit"@.len() == 25);
    assert("claude_permission_request"@.len() == 25);
    assert("claude_post_tool_use"@.len() == 20);
    assert("pane_split"@.len() == 10);
    reveal_strlit("type");
    reveal_strlit("rate_limits");
    assert("type"@.len() == 4 && "rate_limits"@.len() == 11);
    let message = statusline_fields(limits);
    assert forall|key: Seq<char>| #[trigger] message.contains_key(key) implies is_nested(
        message[key],
        126,
    ) by {
        assert(key == "type"@ || key == "rate_limits"@);
    }
    let json = Json::Object(message);
    if is_read_as(json, read, 127) {
        law_fields_are_read_back(json, read, 127, "type"@);
        assert(text_field(read, "type"@) == Some("claude_statusline"@));
        lemma_resets_read(json, read, "five_hour"@);
        lemma_resets_read(json, read, "seven_day"@);
    }
}

/// The message with the rate limits of a status line, where it has any. When the
/// limits are reset is received as it was sent.
pub fn statusline_message(input: &str) -> (text: Result<Option<String>, ()>)
    ensures
        match json_parse(encode_utf8(input@)) {
            Some(json) => match field_of(json, "rate_limits"@) {
                Some(limits) => text matches Ok(Some(text)) && text@ == json_text(
                    Json::Object(statusline_fields(limits)),
                ) && message_of_bytes(encode_utf8(text@)) == Some(
                    MessageModel::ClaudeStatusline {
                        five_hour_resets_at: reset_among(limits, "five_hour"@),
                        seven_day_resets_at: reset_among(limits, "seven_day"@),
                    },
                ),
                None => text matches Ok(None),
            },
            None => text is Err,
        },
{
    let value = match json_read(input.as_bytes()) {
        Some(value) => value,
        None => {
            return Err(());
        },
    };
    match json_field(&value, "rate_limits") {
        Some(limits) => {
            let mut message = json_object();
            json_set(&mut message, "type", json_from_text("claude_statusline".to_string()));
            json_set(&mut message, "rate_limits", json_clone(limits));
            let text = json_write(&message);
            proof {
                assert(json_view(value)->Object_0.contains_key("rate_limits"@));
                lemma_statusline_round_trip(
                    json_view(*limits),
                    json_parse(encode_utf8(text@))->0,
                );
                lemma_brace(text@);
            }
            Ok(Some(text))
        },
        None => Ok(None),
    }
}

/// The processes above this one that are known so far, the nearest first, and
/// whether the parent of the last of them is still to be asked for.
#[derive(Debug)]
pub struct AncestorWalk {
    pub pids: Vec<u32>,
    pub asking: bool,
}

/// How many processes above this one are told.
pub const MAX_ANCESTORS: usize = 10;

/// The process in what was printed for the parent of another one.
pub open spec fn parent_in(output: Option<Seq<char>>) -> Option<u32> {
    match output {
        Some(text) => match parse_number(trim(text)) {
            Some(number) if number <= u32::MAX => Some(number as u32),
            _ => None,
        },
        None => None,
    }
}

/// Whether a process is told: not the first one of the system, nor more than
/// there is room for.
pub open spec fn is_told(pids: Seq<u32>, pid: Option<u32>) -> bool {
    pid is Some && pid->0 > 1 && pids.len() < MAX_ANCESTORS
}

impl AncestorWalk {
    /// At most ten processes, none of them the first one of the system.
    pub open spec fn well_formed(self) -> bool {
        &&& self.pids@.len() <= MAX_ANCESTORS
        &&& self.asking ==> self.pids@.len() > 0
        &&& forall|i: int| 0 <= i < self.pids@.len() ==> #[trigger] self.pids@[i] > 1
    }

    /// Begins with the parent of this process.
    pub fn new(parent: u32) -> (walk: Self)
        ensures
            walk.pids@ == if parent > 1 {
                seq![parent]
            } else {
                seq![]
            },
            walk.asking == (parent > 1),
            walk.well_formed(),
    {
        let mut pids: Vec<u32> = Vec::new();
        if parent > 1 {
            pids.push(parent);
        }
        assert(pids@ =~= if parent > 1 {
            seq![parent]
        } else {
            seq![]
        });
        AncestorWalk { pids, asking: parent > 1 }
    }

    /// The process whose parent is to be asked for.
    pub fn current(&self) -> (pid: Option<u32>)
        requires
            self.well_formed(),
        ensures
            pid == if self.asking {
                Some(self.pids@.last())
            } else {
                None
            },
    {
        if self.asking {
            Some(self.pids[self.pids.len() - 1])
        } else {
            None
        }
    }

    /// Takes note of what was printed for the parent.
    pub fn parent_printed(&mut self, output: &Option<String>)
        requires
            old(self).well_formed(),
        ensures
            final(self).well_formed(),
            ({
                let parent = parent_in(text_model(*output));
                let told = old(self).asking && is_told(old(self).pids@, parent);
                &&& final(self).asking == told
                &&& final(self).pids@ == if told {
                    old(self).pids@.push(parent->0)
                } else {
                    old(self).pids@
                }
            }),
    {
        if !self.asking {
            return;
        }
        self.asking = false;
        if let Some(text) = output {
            let chars = chars_of(text.as_str());
            if let Some(number) = number_in(trimmed(chars.as_slice())) {
                if 1 < number && number <= 0xFFFF_FFFF && self.pids.len() < MAX_ANCESTORS {
                    self.pids.push(number as u32);
                    self.asking = true;
                }
            }
        }
    }
}

/// What came of an attempt to reach the socket of the application before it is
/// bound.
#[derive(Clone, Copy, Debug, PartialEq, Eq, Structural)]
pub enum ProbeOutcome {
    /// There is no socket.
    Absent,
    Answered,
    Refused,
    Failed,
}

/// What is done before the socket is bound.
#[derive(Clone, Copy, Debug, PartialEq, Eq, Structural)]
pub enum ProbeStep {
    Bind,
    /// The socket is left over and to be removed first.
    RemoveAndBind,
    /// Another instance listens already.
    Yield,
    /// The error ends the attempt.
    Fail,
}

/// What is done after an attempt to reach the socket: one that answers belongs to
/// another instance, and one that refuses to none.
pub fn probe_step(outcome: ProbeOutcome) -> (step: ProbeStep)
    ensures
        step == match outcome {
            ProbeOutcome::Absent => ProbeStep::Bind,
            ProbeOutcome::Answered => ProbeStep::Yield,
            ProbeOutcome::Refused => ProbeStep::RemoveAndBind,
            ProbeOutcome::Failed => ProbeStep::Fail,
        },
{
    match outcome {
        ProbeOutcome::Absent => ProbeStep::Bind,
        ProbeOutcome::Answered => ProbeStep::Yield,
        ProbeOutcome::Refused => ProbeStep::RemoveAndBind,
        ProbeOutcome::Failed => ProbeStep::Fail,
    }
}

/// What is done while waiting for the application.
#[derive(Clone, Copy, Debug, PartialEq, Eq, Structural)]
pub enum ReadyStep {
    Ready,
    TimedOut,
    /// To be tried again after so many milliseconds.
    Sleep(u64),
}

/// What is done after an attempt to reach the application.
pub fn ready_step(connected: bool, now: u64, deadline: u64) -> (step: ReadyStep)
    ensures
        step == if connected {
            ReadyStep::Ready
        } else if now >= deadline {
            ReadyStep::TimedOut
        } else {
            ReadyStep::Sleep(200)
        },
{
    if connected {
        ReadyStep::Ready
    } else if now >= deadline {
        ReadyStep::TimedOut
    } else {
        ReadyStep::Sleep(200)
    }
}

/// The words for the sides on which a pane is split.
pub proof fn law_words_of_directions(direction: SplitDirection)
    ensures
        direction_in("right"@) == Some(SplitDirection::Right),
        direction_in("left"@) == Some(SplitDirection::Left),
        direction_in("down"@) == Some(SplitDirection::Down),
        direction_in("up"@) == Some(SplitDirection::Up),
        direction_in(direction_text(direction)) == Some(direction),
{
    reveal_strlit("right");
    reveal_strlit("left");
    reveal_strlit("down");
    reveal_strlit("up");
    assert("right"@.len() == 5);
    assert("left"@.len() == 4 && "left"@[0] == 'l');
    assert("down"@.len() == 4 && "down"@[0] == 'd');
    assert("up"@.len() == 2);
}

/// A text that is no word for a side names none.
pub proof fn law_other_words_are_no_directions(text: Seq<char>)
    ensures
        direction_in(text) is Some ==> text == direction_text(direction_in(text)->0),
        content_in(text) is Some ==> content_text(content_in(text)->0) == Some(text),
{
}

/// The words for what a pane shows.
pub proof fn law_words_of_contents()
    ensures
        content_in("terminal"@) == Some(PaneContentType::Terminal),
        content_in("diff"@) == Some(PaneContentType::Diff),
        content_in("branch-diff"@) == Some(PaneContentType::BranchDiff),
        content_in("git-status"@) == Some(PaneContentType::GitStatus),
        content_in("project-search"@) == Some(PaneContentType::ProjectSearch),
        content_in("git-graph"@) == Some(PaneContentType::GitGraph),
        content_text(PaneContentType::FileBrowser) is None,
{
    reveal_strlit("terminal");
    reveal_strlit("diff");
    reveal_strlit("branch-diff");
    reveal_strlit("git-status");
    reveal_strlit("project-search");
    reveal_strlit("git-graph");
    assert("terminal"@.len() == 8);
    assert("diff"@.len() == 4);
    assert("branch-diff"@.len() == 11);
    assert("git-status"@.len() == 10);
    assert("project-search"@.len() == 14);
    assert("git-graph"@.len() == 9);
}

/// A pane that is split side by side gets the new one at its left or right, one
/// that is split otherwise gets it above or below.
pub proof fn law_sides(horizontal: bool, before: bool)
    ensures
        horizontal <==> direction_of(horizontal, before) is Left || direction_of(
            horizontal,
            before,
        ) is Right,
        before <==> direction_of(horizontal, before) is Left || direction_of(
            horizontal,
            before,
        ) is Up,
{
}

/// What a message of a hook is read as, from its type and its fields.
pub proof fn law_kinds_of_hook_messages(json: Json, kind: Seq<char>, id: Seq<char>, text: Seq<char>)
    requires
        text_field(json, "type"@) == Some(kind),
        text_field(json, "session_id"@) == Some(id),
    ensures
        kind == "claude_session_start"@ ==> message_in(json) == Some(
            MessageModel::ClaudeSessionStart {
                session_id: id,
                ancestor_pids: numbers_field(json, "ancestor_pids"@),
            },
        ),
        kind == "claude_permission_request"@ ==> message_in(json) == Some(
            MessageModel::ClaudePermissionRequest {
                session_id: id,
                ancestor_pids: numbers_field(json, "ancestor_pids"@),
            },
        ),
        kind == "claude_post_tool_use"@ ==> message_in(json) == Some(
            MessageModel::ClaudePostToolUse {
                session_id: id,
                ancestor_pids: numbers_field(json, "ancestor_pids"@),
            },
        ),
        kind == "claude_stop"@ && text_field(json, "title"@) == Some(text) ==> message_in(json)
            == Some(
            MessageModel::ClaudeStop {
                session_id: id,
                ancestor_pids: numbers_field(json, "ancestor_pids"@),
                title: text,
            },
        ),
        kind == "claude_notification"@ && text_field(json, "title"@) == Some(text) ==> message_in(
            json,
        ) == Some(
            MessageModel::ClaudeNotification {
                session_id: id,
                ancestor_pids: numbers_field(json, "ancestor_pids"@),
                title: text,
            },
        ),
        kind == "claude_user_prompt_submit"@ && text_field(json, "prompt"@) == Some(text)
            ==> message_in(json) == Some(
            MessageModel::ClaudeUserPromptSubmit {
                session_id: id,
                ancestor_pids: numbers_field(json, "ancestor_pids"@),
                prompt: text,
            },
        ),
{
    lemma_kinds();
}

/// What any other message is read as: a split or a tab only where each word in it
/// is one that is known, a theme only where it is named.
pub proof fn law_kinds_of_other_messages(json: Json, kind: Seq<char>)
    requires
        text_field(json, "type"@) == Some(kind),
    ensures
        kind == "pane_split"@ ==> (message_in(json) is Some <==> (exists|d: SplitDirection|
            text_field(json, "direction"@) == Some(#[trigger] direction_text(d))) && (exists|
            c: PaneContentType,
        |
            content_text(c) is Some && text_field(json, "content_type"@) == #[trigger] content_text(
                c,
            ))),
        kind == "tab_new"@ ==> (message_in(json) is Some <==> exists|c: PaneContentType|
            content_text(c) is Some && text_field(json, "content_type"@) == #[trigger] content_text(
                c,
            )),
        kind == "change_theme"@ ==> (message_in(json) is Some <==> text_field(
            json,
            "name"@,
        ) is Some && text_field(json, "name"@)->0.len() > 0),
        kind == "change_theme"@ && message_in(json) is Some ==> message_in(json) == Some(
            MessageModel::ChangeTheme { name: text_field(json, "name"@)->0 },
        ),
        kind == "claude_statusline"@ ==> message_in(json) is Some && message_in(
            json,
        )->0 is ClaudeStatusline,
{
    lemma_kinds();
    assert("claude_statusline"@ != "claude_session_start"@ && "claude_statusline"@
        != "claude_stop"@ && "claude_statusline"@ != "claude_notification"@
        && "claude_statusline"@ != "claude_user_prompt_submit"@ && "claude_statusline"@
        != "claude_permission_request"@ && "claude_statusline"@ != "claude_post_tool_use"@) by {
        reveal_strlit("claude_statusline");
        reveal_strlit("claude_session_start");
        reveal_strlit("claude_stop");
        reveal_strlit("claude_notification");
        reveal_strlit("claude_user_prompt_submit");
        reveal_strlit("claude_permission_request");
        reveal_strlit("claude_post_tool_use");
        assert("claude_statusline"@.len() == 17);
        assert("claude_session_start"@.len() == 20);
        assert("claude_stop"@.len() == 11);
        assert("claude_notification"@.len() == 19);
        assert("claude_user_prompt_submit"@.len() == 25);
        assert("claude_permission_request"@.len() == 25);
        assert("claude_post_tool_use"@.len() == 20);
    }
    if let Some(word) = text_field(json, "direction"@) {
        assert forall|d: SplitDirection| word == #[trigger] direction_text(d) implies direction_in(
            word,
        ) is Some by {
            law_words_of_directions(d);
        }
        if direction_in(word) is Some {
            assert(word == direction_text(direction_in(word)->0));
        }
    }
    if let Some(word) = text_field(json, "content_type"@) {
        assert forall|c: PaneContentType| Some(word) == #[trigger] content_text(
            c,
        ) implies content_in(word) is Some by {
            law_words_of_contents();
        }
        if content_in(word) is Some {
            assert(Some(word) == content_text(content_in(word)->0));
        }
    }
}

/// A title and a prompt reach the window up to their five hundredth character, and
/// a message of the hook stands for a title that is missing.
pub proof fn law_long_texts_are_cut(input: Json, pids: Seq<u32>, text: Seq<char>)
    requires
        text_field(input, "title"@) == Some(text) || (text_field(input, "title"@) is None
            && text_field(input, "message"@) == Some(text)),
    ensures
        ({
            let cut = text.take(
                if text.len() < 500 {
                    text.len() as int
                } else {
                    500
                },
            );
            &&& hook_sent(ClaudeHookEvent::Notification, input, pids)
                == (MessageModel::ClaudeNotification {
                session_id: text_or_empty(input, "session_id"@),
                ancestor_pids: pids,
                title: cut,
            })
            &&& hook_sent(ClaudeHookEvent::Stop, input, pids) == (MessageModel::ClaudeStop {
                session_id: text_or_empty(input, "session_id"@),
                ancestor_pids: pids,
                title: cut,
            })
        }),
{
    assert(text.take(text.len() as int) =~= text);
}

/// What is printed as the parent of a process is its number; the walk goes on from
/// there as long as it is no root of all processes and few were told.
pub proof fn law_parents(parent: u32, pids: Seq<u32>)
    ensures
        parent_in(Some(decimal(parent as nat))) == Some(parent),
        parent_in(Some(decimal(parent as nat).push('\n'))) == Some(parent),
        parent_in(None) is None,
        is_told(pids, Some(parent)) <==> parent != 0 && parent != 1 && pids.len() < MAX_ANCESTORS,
        !is_told(pids, None),
{
    let digits = decimal(parent as nat);
    lemma_decimal_value(parent as nat);
    assert(is_ascii_digit(digits[0]));
    assert(is_ascii_digit(digits[digits.len() - 1]));
    lemma_trim_keeps(digits);
    assert(parse_number(digits) == Some(parent as u64));
    let line = digits.push('\n');
    assert(is_whitespace('\n'));
    lemma_run_start(line, line.len() as int, CharClass::Whitespace);
    assert(CharClass::Whitespace.has(line[line.len() - 1]));
    assert(!CharClass::Whitespace.has(line[line.len() - 2]));
    assert(trim_end_of(line, CharClass::Whitespace) =~= digits) by {
        reveal_with_fuel(run_start, 3);
    }
    assert(trim(line) =~= digits) by {
        assert(trim_start_of(digits, CharClass::Whitespace) =~= digits);
    }
}

/// A message that begins with a brace is an object and nothing else; any other is
/// a path, where it is text.
pub proof fn law_objects_and_paths(bytes: Seq<u8>)
    ensures
        bytes.len() > 0 && bytes[0] == '{' as u8 ==> (message_of_bytes(bytes) is Some
            <==> json_parse(bytes) is Some && message_in(json_parse(bytes)->0) is Some),
        bytes.len() > 0 && bytes[0] == '{' as u8 && message_of_bytes(bytes) is Some
            ==> message_of_bytes(bytes) == message_in(json_parse(bytes)->0),
        (bytes.len() == 0 || bytes[0] != '{' as u8) && valid_utf8(bytes) ==> message_of_bytes(bytes)
            == Some(MessageModel::WorkspacePath(decode_utf8(bytes))),
        (bytes.len() == 0 || bytes[0] != '{' as u8) && !valid_utf8(bytes) ==> message_of_bytes(
            bytes,
        ) is None,
{
}

} // verus!
