//! The hooks that are installed, as text and as a JSON value.

use crate::json;
use crate::json::JsonModel;
use crate::text;
use vstd::prelude::*;

verus! {

/// The hooks that report an agent's status, as they stand in a settings file.
pub const HOOKS_JSON: &'static str = "{
  \"hooks\": {
    \"AfterAgent\": [
      {
        \"hooks\": [
          {
            \"command\": \"workmux set-window-status done\",
            \"type\": \"command\"
          }
        ]
      }
    ],
    \"AfterTool\": [
      {
        \"hooks\": [
          {
            \"command\": \"workmux set-window-status working\",
            \"type\": \"command\"
          }
        ]
      }
    ],
    \"BeforeAgent\": [
      {
        \"hooks\": [
          {
            \"command\": \"workmux set-window-status working\",
            \"type\": \"command\"
          }
        ]
      }
    ],
    \"Notification\": [
      {
        \"hooks\": [
          {
            \"command\": \"workmux set-window-status waiting\",
            \"type\": \"command\"
          }
        ]
      }
    ],
    \"SessionStart\": [
      {
        \"hooks\": [
          {
            \"command\": \"workmux set-window-status clear\",
            \"type\": \"command\"
          }
        ]
      }
    ]
  }
}";

/// A hook that runs a command.
pub open spec fn command_hook(command: Seq<char>) -> JsonModel {
    JsonModel::Object(
        seq![
            ("command"@, JsonModel::Text(command)),
            ("type"@, JsonModel::Text("command"@)),
        ],
    )
}

/// A group with one hook, which runs a command.
pub open spec fn command_group(command: Seq<char>) -> JsonModel {
    JsonModel::Object(seq![("hooks"@, JsonModel::Array(seq![command_hook(command)]))])
}

/// The embedded hooks: for each event one group with one hook.
pub open spec fn embedded_hooks() -> Seq<(Seq<char>, JsonModel)> {
    seq![
        ("AfterAgent"@, JsonModel::Array(seq![command_group("workmux set-window-status done"@)])),
        ("AfterTool"@, JsonModel::Array(seq![command_group("workmux set-window-status working"@)])),
        ("BeforeAgent"@, JsonModel::Array(seq![command_group("workmux set-window-status working"@)])),
        ("Notification"@, JsonModel::Array(seq![command_group("workmux set-window-status waiting"@)])),
        ("SessionStart"@, JsonModel::Array(seq![command_group("workmux set-window-status clear"@)])),
    ]
}

/// The configuration that holds the embedded hooks.
pub open spec fn embedded_config() -> JsonModel {
    JsonModel::Object(seq![("hooks"@, JsonModel::Object(embedded_hooks()))])
}

/// What stands before the command in the text of a hook.
spec fn hook_opening() -> Seq<char> {
    "{\n            \"command\": \""@
}

/// What stands behind the command in the text of a hook.
spec fn hook_closing() -> Seq<char> {
    "\",\n            \"type\": \"command\"\n          }"@
}

/// What stands before the command in the text of an event's groups.
spec fn groups_opening() -> Seq<char> {
    "[\n      {\n        \"hooks\": [\n          {\n            \"command\": \""@
}

/// What stands behind the command in the text of an event's groups.
spec fn groups_closing() -> Seq<char> {
    "\",\n            \"type\": \"command\"\n          }\n        ]\n      }\n    ]"@
}

#[verifier::spinoff_prover]
proof fn lemma_hook_text(command: Seq<char>)
    ensures
        json::indented(command_hook(command), 5) == hook_opening() + command
            + hook_closing(),
{
    let first = ("command"@, JsonModel::Text(command));
    let second = ("type"@, JsonModel::Text("command"@));
    let entries = seq![first, second];
    assert(command_hook(command)->Object_0 == entries);
    assert(entries =~= seq![first].push(second));
    json::lemma_single_entry_text(first.0, first.1, 6);
    json::lemma_next_entry_text(seq![first], second.0, second.1, 6);
    reveal_strlit("{\n            \"command\": \"");
    reveal_strlit("\",\n            \"type\": \"command\"\n          }");
    reveal_strlit("command");
    reveal_strlit("type");
    reveal_strlit("\"");
    reveal_strlit("\": ");
    reveal_strlit(",");
    reveal_strlit("\n");
    reveal_strlit("{");
    reveal_strlit("}");
    assert(hook_opening() =~= "{"@ + "\n"@ + json::margin(6) + "\""@ + "command"@ + "\": "@
        + "\""@);
    assert(hook_closing() =~= "\""@ + ","@ + "\n"@ + json::margin(6) + "\""@ + "type"@ + "\": "@
        + "\""@ + "command"@ + "\""@ + "\n"@ + json::margin(5) + "}"@);
    assert(json::indented(command_hook(command), 5) =~= hook_opening() + command
        + hook_closing());
}

#[verifier::spinoff_prover]
proof fn lemma_groups_text(command: Seq<char>)
    ensures
        json::indented(JsonModel::Array(seq![command_group(command)]), 2) == groups_opening() + command
            + groups_closing(),
{
    let hooks = JsonModel::Array(seq![command_hook(command)]);
    assert(command_group(command)->Object_0 == seq![("hooks"@, hooks)]);
    lemma_hook_text(command);
    json::lemma_single_item_text(command_hook(command), 4);
    json::lemma_single_entry_text("hooks"@, hooks, 4);
    json::lemma_single_item_text(command_group(command), 2);
    reveal_strlit("{\n            \"command\": \"");
    reveal_strlit("\",\n            \"type\": \"command\"\n          }");
    reveal_strlit("[\n      {\n        \"hooks\": [\n          {\n            \"command\": \"");
    reveal_strlit("\",\n            \"type\": \"command\"\n          }\n        ]\n      }\n    ]");
    reveal_strlit("hooks");
    reveal_strlit("\"");
    reveal_strlit("\": ");
    reveal_strlit("\n");
    reveal_strlit("{");
    reveal_strlit("}");
    reveal_strlit("[");
    reveal_strlit("]");
    assert(groups_opening() =~= "["@ + "\n"@ + json::margin(3) + "{"@ + "\n"@ + json::margin(4)
        + "\""@ + "hooks"@ + "\": "@ + "["@ + "\n"@ + json::margin(5) + hook_opening());
    assert(groups_closing() =~= hook_closing() + "\n"@ + json::margin(4) + "]"@ + "\n"@
        + json::margin(3) + "}"@ + "\n"@ + json::margin(2) + "]"@);
    assert(json::indented(JsonModel::Array(seq![command_group(command)]), 2) =~= groups_opening()
        + command
        + groups_closing());
}

/// The lines of an event with one command in the text of the embedded hooks.
spec fn event_text(event: Seq<char>, command: Seq<char>) -> Seq<char> {
    "\n"@ + json::margin(2) + "\""@ + event + "\": "@ + (groups_opening() + command
        + groups_closing())
}

proof fn lemma_event_lines(
    before: Seq<(Seq<char>, JsonModel)>,
    event: Seq<char>,
    command: Seq<char>,
)
    ensures
        before.len() == 0 ==> json::entry_lines(
            before.push((event, JsonModel::Array(seq![command_group(command)]))),
            2,
        ) == event_text(event, command),
        before.len() > 0 ==> json::entry_lines(
            before.push((event, JsonModel::Array(seq![command_group(command)]))),
            2,
        ) == json::entry_lines(before, 2) + (","@ + event_text(event, command)),
{
    let groups = JsonModel::Array(seq![command_group(command)]);
    lemma_groups_text(command);
    if before.len() == 0 {
        assert(before.push((event, groups)) =~= seq![(event, groups)]);
        json::lemma_single_entry_text(event, groups, 2);
    } else {
        json::lemma_next_entry_text(before, event, groups, 2);
        assert(json::entry_lines(before.push((event, groups)), 2) =~= json::entry_lines(before, 2)
            + (","@ + event_text(event, command)));
    }
}

/// The text of the embedded hooks in its parts.
#[verifier::spinoff_prover]
proof fn lemma_embedded_parts()
    ensures
        HOOKS_JSON@ == "{\n  \"hooks\": {"@
            + event_text("AfterAgent"@, "workmux set-window-status done"@)
            + (","@ + event_text("AfterTool"@, "workmux set-window-status working"@))
            + (","@ + event_text("BeforeAgent"@, "workmux set-window-status working"@))
            + (","@ + event_text("Notification"@, "workmux set-window-status waiting"@))
            + (","@ + event_text("SessionStart"@, "workmux set-window-status clear"@))
            + "\n  }\n}"@,
{
    reveal_strlit("{
  \"hooks\": {
    \"AfterAgent\": [
      {
        \"hooks\": [
          {
            \"command\": \"workmux set-window-status done\",
            \"type\": \"command\"
          }
        ]
      }
    ],
    \"AfterTool\": [
      {
        \"hooks\": [
          {
            \"command\": \"workmux set-window-status working\",
            \"type\": \"command\"
          }
        ]
      }
    ],
    \"BeforeAgent\": [
      {
        \"hooks\": [
          {
            \"command\": \"workmux set-window-status working\",
            \"type\": \"command\"
          }
        ]
      }
    ],
    \"Notification\": [
      {
        \"hooks\": [
          {
            \"command\": \"workmux set-window-status waiting\",
            \"type\": \"command\"
          }
        ]
      }
    ],
    \"SessionStart\": [
      {
        \"hooks\": [
          {
            \"command\": \"workmux set-window-status clear\",
            \"type\": \"command\"
          }
        ]
      }
    ]
  }
}");
    reveal_strlit("[\n      {\n        \"hooks\": [\n          {\n            \"command\": \"");
    reveal_strlit("\",\n            \"type\": \"command\"\n          }\n        ]\n      }\n    ]");
    reveal_strlit("\"");
    reveal_strlit("\": ");
    reveal_strlit("\n");
    reveal_strlit(",");
    reveal_strlit("{\n  \"hooks\": {");
    reveal_strlit("\n  }\n}");
    reveal_strlit("AfterAgent");
    reveal_strlit("AfterTool");
    reveal_strlit("BeforeAgent");
    reveal_strlit("Notification");
    reveal_strlit("SessionStart");
    reveal_strlit("workmux set-window-status done");
    reveal_strlit("workmux set-window-status working");
    reveal_strlit("workmux set-window-status waiting");
    reveal_strlit("workmux set-window-status clear");
    assert(HOOKS_JSON@ =~= "{\n  \"hooks\": {"@
        + event_text("AfterAgent"@, "workmux set-window-status done"@)
        + (","@ + event_text("AfterTool"@, "workmux set-window-status working"@))
        + (","@ + event_text("BeforeAgent"@, "workmux set-window-status working"@))
        + (","@ + event_text("Notification"@, "workmux set-window-status waiting"@))
        + (","@ + event_text("SessionStart"@, "workmux set-window-status clear"@))
        + "\n  }\n}"@);
}

/// The lines of the embedded hooks.
proof fn lemma_embedded_lines()
    ensures
        json::entry_lines(embedded_hooks(), 2)
            == event_text("AfterAgent"@, "workmux set-window-status done"@)
            + (","@ + event_text("AfterTool"@, "workmux set-window-status working"@))
            + (","@ + event_text("BeforeAgent"@, "workmux set-window-status working"@))
            + (","@ + event_text("Notification"@, "workmux set-window-status waiting"@))
            + (","@ + event_text("SessionStart"@, "workmux set-window-status clear"@)),
{
    let hooks = embedded_hooks();
    lemma_event_lines(hooks.take(0), "AfterAgent"@, "workmux set-window-status done"@);
    assert(hooks.take(1) =~= hooks.take(0).push(hooks[0]));
    lemma_event_lines(hooks.take(1), "AfterTool"@, "workmux set-window-status working"@);
    assert(hooks.take(2) =~= hooks.take(1).push(hooks[1]));
    lemma_event_lines(hooks.take(2), "BeforeAgent"@, "workmux set-window-status working"@);
    assert(hooks.take(3) =~= hooks.take(2).push(hooks[2]));
    lemma_event_lines(hooks.take(3), "Notification"@, "workmux set-window-status waiting"@);
    assert(hooks.take(4) =~= hooks.take(3).push(hooks[3]));
    lemma_event_lines(hooks.take(4), "SessionStart"@, "workmux set-window-status clear"@);
    assert(hooks.take(5) =~= hooks.take(4).push(hooks[4]));
    assert(hooks.take(5) =~= hooks);
}

/// The text of the configuration around the lines of its hooks.
#[verifier::spinoff_prover]
proof fn lemma_config_text(hooks: Seq<(Seq<char>, JsonModel)>)
    requires
        hooks.len() > 0,
    ensures
        json::indented(JsonModel::Object(seq![("hooks"@, JsonModel::Object(hooks))]), 0)
            == "{\n  \"hooks\": {"@ + json::entry_lines(hooks, 2) + "\n  }\n}"@,
{
    let inner = JsonModel::Object(hooks);
    let config = JsonModel::Object(seq![("hooks"@, inner)]);
    assert(inner->Object_0 == hooks);
    assert(config->Object_0 == seq![("hooks"@, inner)]);
    json::lemma_single_entry_text("hooks"@, inner, 1);
    reveal_strlit("{\n  \"hooks\": {");
    reveal_strlit("\n  }\n}");
    reveal_strlit("hooks");
    reveal_strlit("\"");
    reveal_strlit("\": ");
    reveal_strlit("\n");
    reveal_strlit("{");
    reveal_strlit("}");
    assert("{\n  \"hooks\": {"@ =~= "{"@ + "\n"@ + json::margin(1) + "\""@ + "hooks"@ + "\": "@
        + "{"@);
    assert("\n  }\n}"@ =~= "\n"@ + json::margin(1) + "}"@ + "\n"@ + json::margin(0) + "}"@);
    assert(json::indented(config, 0) =~= "{\n  \"hooks\": {"@ + json::entry_lines(hooks, 2)
        + "\n  }\n}"@);
}

/// The embedded text is the indented text of the embedded configuration.
pub proof fn lemma_embedded_text()
    ensures
        HOOKS_JSON@ == json::indented(embedded_config(), 0),
{
    let opening = "{\n  \"hooks\": {"@;
    let closing = "\n  }\n}"@;
    let a = event_text("AfterAgent"@, "workmux set-window-status done"@);
    let b = ","@ + event_text("AfterTool"@, "workmux set-window-status working"@);
    let c = ","@ + event_text("BeforeAgent"@, "workmux set-window-status working"@);
    let d = ","@ + event_text("Notification"@, "workmux set-window-status waiting"@);
    let e = ","@ + event_text("SessionStart"@, "workmux set-window-status clear"@);
    lemma_embedded_parts();
    lemma_embedded_lines();
    lemma_config_text(embedded_hooks());
    assert(opening + a + b + c + d + e + closing =~= opening + (a + b + c + d + e) + closing);
}

/// Whether a value is read back from its indented text.
pub open spec fn readable(m: JsonModel, depth: nat) -> bool {
    json::plain(m) && json::numberless(m) && json::well_formed(m) && json::nested(m, depth)
}

proof fn lemma_object_readable(entries: Seq<(Seq<char>, JsonModel)>, depth: nat)
    requires
        depth > 0,
        json::sorted_keys(entries),
        forall|i: int|
            0 <= i < entries.len() ==> json::unescaped((#[trigger] entries[i]).0) && readable(
                entries[i].1,
                (depth - 1) as nat,
            ),
    ensures
        readable(JsonModel::Object(entries), depth),
{
    assert(JsonModel::Object(entries)->Object_0 == entries);
}

proof fn lemma_single_readable(item: JsonModel, depth: nat)
    requires
        depth > 0,
        readable(item, (depth - 1) as nat),
    ensures
        readable(JsonModel::Array(seq![item]), depth),
{
    assert(JsonModel::Array(seq![item])->Array_0 == seq![item]);
}

proof fn lemma_groups_readable(command: Seq<char>, depth: nat)
    requires
        depth > 3,
        json::unescaped(command),
    ensures
        readable(JsonModel::Array(seq![command_group(command)]), depth),
{
    reveal_strlit("command");
    reveal_strlit("type");
    reveal_strlit("hooks");
    text::lemma_precedes_at("command"@, "type"@, 0);
    lemma_object_readable(command_hook(command)->Object_0, (depth - 3) as nat);
    lemma_single_readable(command_hook(command), (depth - 2) as nat);
    lemma_object_readable(command_group(command)->Object_0, (depth - 1) as nat);
    lemma_single_readable(command_group(command), depth);
}

/// The embedded configuration can be read back from its text.
pub proof fn lemma_embedded_readable()
    ensures
        readable(embedded_config(), json::depth_limit()),
{
    let hooks = embedded_hooks();
    reveal_strlit("hooks");
    reveal_strlit("AfterAgent");
    reveal_strlit("AfterTool");
    reveal_strlit("BeforeAgent");
    reveal_strlit("Notification");
    reveal_strlit("SessionStart");
    reveal_strlit("workmux set-window-status done");
    reveal_strlit("workmux set-window-status working");
    reveal_strlit("workmux set-window-status waiting");
    reveal_strlit("workmux set-window-status clear");
    text::lemma_precedes_at("AfterAgent"@, "AfterTool"@, 5);
    text::lemma_precedes_at("AfterAgent"@, "BeforeAgent"@, 0);
    text::lemma_precedes_at("AfterAgent"@, "Notification"@, 0);
    text::lemma_precedes_at("AfterAgent"@, "SessionStart"@, 0);
    text::lemma_precedes_at("AfterTool"@, "BeforeAgent"@, 0);
    text::lemma_precedes_at("AfterTool"@, "Notification"@, 0);
    text::lemma_precedes_at("AfterTool"@, "SessionStart"@, 0);
    text::lemma_precedes_at("BeforeAgent"@, "Notification"@, 0);
    text::lemma_precedes_at("BeforeAgent"@, "SessionStart"@, 0);
    text::lemma_precedes_at("Notification"@, "SessionStart"@, 0);
    lemma_groups_readable("workmux set-window-status done"@, 125);
    lemma_groups_readable("workmux set-window-status working"@, 125);
    lemma_groups_readable("workmux set-window-status waiting"@, 125);
    lemma_groups_readable("workmux set-window-status clear"@, 125);
    lemma_object_readable(hooks, 126);
    lemma_object_readable(embedded_config()->Object_0, 127);
}

} // verus!
