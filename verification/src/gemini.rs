//! Status tracking for the Gemini CLI: whether the CLI is there, whether its
//! settings hold the hooks that report an agent's status, and how the hooks
//! are merged into the settings.

use crate::hooks;
pub use crate::hooks::HOOKS_JSON;
use crate::json;
use crate::json::find_key;
use crate::json::parse;
use crate::json::render;
use crate::json::Json;
use crate::json::JsonModel;
use crate::merge;
use crate::merge::merge_hooks;
use crate::merge::MergeError;
use crate::merge::MergeFault;
use crate::text;
use crate::text::contains_part;
use vstd::prelude::*;
use vstd::string::StringExecFns;

verus! {

/// Whether the hooks are installed.
#[derive(Clone, Copy, Debug, PartialEq, Eq, Structural)]
pub enum StatusCheck {
    Installed,
    NotInstalled,
}

/// The settings file as it was found.
#[derive(Debug, PartialEq, Eq)]
pub enum SettingsFile {
    /// There is no home directory to look in.
    NoHome,
    /// The file does not exist.
    Missing,
    /// The file holds this text.
    Present(String),
}

/// The settings file as mathematics sees it.
pub enum FileState {
    NoHome,
    Missing,
    Present(Seq<char>),
}

impl View for SettingsFile {
    type V = FileState;

    open spec fn view(&self) -> FileState {
        match self {
            SettingsFile::NoHome => FileState::NoHome,
            SettingsFile::Missing => FileState::Missing,
            SettingsFile::Present(content) => FileState::Present(content@),
        }
    }
}

/// Why the settings could not be checked or changed.
#[derive(Debug)]
pub enum SetupError {
    /// There is no home directory.
    NoHome,
    /// The settings file is not JSON.
    InvalidSettings(serde_json::Error),
    /// The configuration of the hooks has no `hooks`.
    MissingHooks,
    /// The hooks do not fit into the settings.
    Merge(MergeError),
}

/// Why the settings could not be checked or changed, as mathematics sees it.
pub enum SetupFault {
    NoHome,
    InvalidSettings(Seq<char>),
    MissingHooks,
    Merge(MergeFault),
}

impl View for SetupError {
    type V = SetupFault;

    open spec fn view(&self) -> SetupFault {
        match self {
            SetupError::NoHome => SetupFault::NoHome,
            SetupError::InvalidSettings(cause) => SetupFault::InvalidSettings(
                json::error_text(*cause),
            ),
            SetupError::MissingHooks => SetupFault::MissingHooks,
            SetupError::Merge(error) => SetupFault::Merge(error@),
        }
    }
}

/// What a fault is reported as.
pub open spec fn fault_text(fault: SetupFault) -> Seq<char> {
    match fault {
        SetupFault::NoHome => "Could not determine home directory"@,
        SetupFault::InvalidSettings(_) => "~/.gemini/settings.json is not valid JSON"@,
        SetupFault::MissingHooks => "hooks config missing hooks key"@,
        SetupFault::Merge(MergeFault::RootNotObject) => "settings.json root is not an object"@,
        SetupFault::Merge(MergeFault::HooksNotObject) => "settings.json hooks is not an object"@,
        SetupFault::Merge(MergeFault::EventNotArray(event)) => "hooks."@ + event
            + " is not an array"@,
    }
}

impl SetupError {
    /// The message that reports the error.
    pub fn message(&self) -> (text: String)
        ensures
            text@ == fault_text(self@),
    {
        match self {
            SetupError::NoHome => "Could not determine home directory".to_owned(),
            SetupError::InvalidSettings(_) => {
                "~/.gemini/settings.json is not valid JSON".to_owned()
            },
            SetupError::MissingHooks => "hooks config missing hooks key".to_owned(),
            SetupError::Merge(MergeError::RootNotObject) => {
                "settings.json root is not an object".to_owned()
            },
            SetupError::Merge(MergeError::HooksNotObject) => {
                "settings.json hooks is not an object".to_owned()
            },
            SetupError::Merge(MergeError::EventNotArray(event)) => {
                "hooks.".to_owned().concat(event.as_str()).concat(" is not an array")
            },
        }
    }
}

/// Says how the Gemini CLI was recognised. `dir` tells whether `~/.gemini` is a
/// directory, or nothing where there is no home directory.
pub fn detect(dir: Option<bool>) -> (reason: Option<&'static str>)
    ensures
        reason is Some <==> dir == Some(true),
        reason is Some ==> reason->0@ == "found ~/.gemini/"@,
{
    match dir {
        Some(true) => Some("found ~/.gemini/"),
        _ => None,
    }
}

/// Whether a hook runs the command that reports an agent's status.
pub open spec fn hook_reports(hook: JsonModel) -> bool {
    json::member(hook, "command"@) matches Some(JsonModel::Text(command)) && text::has_part(
        command,
        "workmux set-window-status"@,
    )
}

/// Whether one of the hooks in a list reports an agent's status.
pub open spec fn list_reports(hooks: Seq<JsonModel>) -> bool {
    exists|i: int| 0 <= i < hooks.len() && hook_reports(#[trigger] hooks[i])
}

/// Whether one of the hooks in a group reports an agent's status.
pub open spec fn group_reports(group: JsonModel) -> bool {
    json::member(group, "hooks"@) matches Some(JsonModel::Array(hooks)) && list_reports(hooks)
}

/// Whether one of the groups in a list reports an agent's status.
pub open spec fn groups_report(groups: Seq<JsonModel>) -> bool {
    exists|i: int| 0 <= i < groups.len() && group_reports(#[trigger] groups[i])
}

/// Whether one of the groups for an event reports an agent's status.
pub open spec fn event_reports(groups: JsonModel) -> bool {
    groups matches JsonModel::Array(list) && groups_report(list)
}

/// Whether the groups for some event report an agent's status.
pub open spec fn events_report(events: Seq<(Seq<char>, JsonModel)>) -> bool {
    exists|i: int| 0 <= i < events.len() && event_reports((#[trigger] events[i]).1)
}

/// Whether the settings hold a hook that reports an agent's status.
pub open spec fn settings_report(config: JsonModel) -> bool {
    json::member(config, "hooks"@) matches Some(JsonModel::Object(events)) && events_report(events)
}

fn has_reporting_hook(hook: &Json) -> (yes: bool)
    ensures
        yes == hook_reports(hook@),
{
    match hook.get("command") {
        Some(Json::Text(command)) => contains_part(command.as_str(), "workmux set-window-status"),
        _ => false,
    }
}

fn group_has_reporting_hook(group: &Json) -> (yes: bool)
    ensures
        yes == group_reports(group@),
{
    broadcast use json::lemma_array_model;

    match group.get("hooks") {
        Some(Json::Array(hooks)) => {
            let ghost all = json::models(hooks@);
            let mut i: usize = 0;
            while i < hooks.len()
                invariant
                    all == json::models(hooks@),
                    json::member(group@, "hooks"@) == Some(JsonModel::Array(all)),
                    i <= hooks@.len(),
                    forall|j: int| 0 <= j < i ==> !hook_reports(#[trigger] all[j]),
                decreases hooks@.len() - i,
            {
                assert(all[i as int] == hooks@[i as int]@);
                if has_reporting_hook(&hooks[i]) {
                    return true;
                }
                i += 1;
            }
            false
        },
        _ => false,
    }
}

fn event_has_reporting_hook(groups: &Json) -> (yes: bool)
    ensures
        yes == event_reports(groups@),
{
    broadcast use json::lemma_array_model;

    match groups {
        Json::Array(list) => {
            let ghost all = json::models(list@);
            let mut i: usize = 0;
            while i < list.len()
                invariant
                    all == json::models(list@),
                    groups@ == JsonModel::Array(all),
                    i <= list@.len(),
                    forall|j: int| 0 <= j < i ==> !group_reports(#[trigger] all[j]),
                decreases list@.len() - i,
            {
                assert(all[i as int] == list@[i as int]@);
                if group_has_reporting_hook(&list[i]) {
                    return true;
                }
                i += 1;
            }
            false
        },
        _ => false,
    }
}

/// Whether the settings hold a hook that runs `workmux set-window-status`.
pub fn has_workmux_hooks(config: &Json) -> (yes: bool)
    ensures
        yes == settings_report(config@),
{
    broadcast use json::lemma_object_model;

    match config.get("hooks") {
        Some(Json::Object(events)) => {
            let ghost all = json::entry_models(events@);
            let mut i: usize = 0;
            while i < events.len()
                invariant
                    all == json::entry_models(events@),
                    json::member(config@, "hooks"@) == Some(JsonModel::Object(all)),
                    i <= events@.len(),
                    forall|j: int| 0 <= j < i ==> !event_reports((#[trigger] all[j]).1),
                decreases events@.len() - i,
            {
                assert(all[i as int] == (events@[i as int].0@, events@[i as int].1@));
                if event_has_reporting_hook(&events[i].1) {
                    return true;
                }
                i += 1;
            }
            false
        },
        _ => false,
    }
}

/// What a check of the settings file finds. Without a home directory or a file
/// nothing is installed.
pub open spec fn checked(file: FileState) -> Result<StatusCheck, SetupFault> {
    match file {
        FileState::Present(content) => match json::parsed(content) {
            Ok(config) => if settings_report(config) {
                Ok(StatusCheck::Installed)
            } else {
                Ok(StatusCheck::NotInstalled)
            },
            Err(cause) => Err(SetupFault::InvalidSettings(cause)),
        },
        _ => Ok(StatusCheck::NotInstalled),
    }
}

/// Checks whether the hooks are installed in the settings file.
pub fn check(file: &SettingsFile) -> (result: Result<StatusCheck, SetupError>)
    ensures
        match result {
            Ok(status) => checked(file@) == Ok::<_, SetupFault>(status),
            Err(error) => checked(file@) == Err::<StatusCheck, _>(error@),
        },
{
    match file {
        SettingsFile::Present(content) => match parse(content.as_str()) {
            Ok(config) => if has_workmux_hooks(&config) {
                Ok(StatusCheck::Installed)
            } else {
                Ok(StatusCheck::NotInstalled)
            },
            Err(error) => Err(SetupError::InvalidSettings(error)),
        },
        _ => Ok(StatusCheck::NotInstalled),
    }
}

/// Takes the hooks out of a configuration that holds them under `hooks`.
pub fn hooks_of(config: Json) -> (hooks: Result<Json, SetupError>)
    ensures
        match hooks {
            Ok(found) => json::member(config@, "hooks"@) == Some(found@),
            Err(error) => json::member(config@, "hooks"@) is None && error is MissingHooks,
        },
{
    broadcast use json::lemma_object_model;

    match config {
        Json::Object(entries) => {
            let mut entries: Vec<(String, Json)> = entries;
            match find_key(&entries, "hooks") {
                Some(i) => {
                    let (_, found) = entries.remove(i);
                    Ok(found)
                },
                None => Err(SetupError::MissingHooks),
            }
        },
        _ => Err(SetupError::MissingHooks),
    }
}

/// Loads the hooks from the embedded configuration.
pub fn load_hooks() -> (result: Result<Json, SetupError>)
    ensures
        result matches Ok(found) && found@ == JsonModel::Object(hooks::embedded_hooks()),
{
    proof {
        hooks::lemma_embedded_text();
        hooks::lemma_embedded_readable();
        json::lemma_lookup_at(hooks::embedded_config()->Object_0, "hooks"@, 0);
    }
    hooks_of(parse(HOOKS_JSON).unwrap())
}

/// The settings in the file; an empty object where there is no file.
pub open spec fn settings_in(file: FileState) -> Result<JsonModel, SetupFault> {
    match file {
        FileState::NoHome => Err(SetupFault::NoHome),
        FileState::Missing => Ok(JsonModel::Object(Seq::empty())),
        FileState::Present(content) => match json::parsed(content) {
            Ok(config) => Ok(config),
            Err(cause) => Err(SetupFault::InvalidSettings(cause)),
        },
    }
}

/// The settings after the embedded hooks were added to those in the file.
pub open spec fn installed(file: FileState) -> Result<JsonModel, SetupFault> {
    match settings_in(file) {
        Ok(config) => match merge::merged(config, hooks::embedded_hooks()) {
            Ok(after) => Ok(after),
            Err(fault) => Err(SetupFault::Merge(fault)),
        },
        Err(fault) => Err(fault),
    }
}

/// An installation to carry out.
#[derive(Debug, PartialEq, Eq)]
pub struct Installation {
    /// What the settings file is to hold.
    pub contents: String,
    /// What to report once the file is written.
    pub message: String,
}

fn load_settings(file: &SettingsFile) -> (result: Result<Json, SetupError>)
    ensures
        match result {
            Ok(config) => {
                &&& settings_in(file@) == Ok::<_, SetupFault>(config@)
                &&& json::well_formed(config@)
                &&& json::nested(config@, json::depth_limit())
            },
            Err(error) => settings_in(file@) == Err::<JsonModel, _>(error@),
        },
{
    broadcast use json::lemma_object_model;

    match file {
        SettingsFile::NoHome => Err(SetupError::NoHome),
        SettingsFile::Missing => {
            let entries: Vec<(String, Json)> = Vec::new();
            assert(json::entry_models(entries@) =~= Seq::empty());
            let config: Json = Json::Object(entries);
            assert(config@->Object_0.len() == 0);
            Ok(config)
        },
        SettingsFile::Present(content) => match parse(content.as_str()) {
            Ok(config) => Ok(config),
            Err(error) => Err(SetupError::InvalidSettings(error)),
        },
    }
}

/// Adds the embedded hooks to the settings in the file. Nothing is to be
/// written where this fails. The new contents are read back as the merged
/// settings. A check then finds the hooks, and a second installation adds
/// nothing: without fractions in the settings it writes the same contents.
pub fn install(file: &SettingsFile) -> (result: Result<Installation, SetupError>)
    ensures
        match result {
            Ok(done) => {
                &&& installed(file@) is Ok
                &&& done.contents@ == json::rendered(installed(file@)->Ok_0) + "\n"@
                &&& done.message@ == "Installed hooks to ~/.gemini/settings.json"@
                &&& json::plain(installed(file@)->Ok_0) ==> done.contents@ == json::indented(
                    installed(file@)->Ok_0,
                    0,
                ) + "\n"@
                &&& json::reads_as(done.contents@, installed(file@)->Ok_0)
                &&& checked(FileState::Present(done.contents@)) == Ok::<_, SetupFault>(
                    StatusCheck::Installed,
                )
                &&& installed(FileState::Present(done.contents@)) == settings_in(
                    FileState::Present(done.contents@),
                )
                &&& json::all_integral(installed(file@)->Ok_0) ==> installed(
                    FileState::Present(done.contents@),
                ) == installed(file@)
            },
            Err(error) => installed(file@) == Err::<JsonModel, _>(error@),
        },
{
    let config: Json = match load_settings(file) {
        Ok(config) => config,
        Err(error) => {
            return Err(error);
        },
    };
    let hooks: Json = match load_hooks() {
        Ok(hooks) => hooks,
        Err(error) => {
            return Err(error);
        },
    };
    let ghost before = config@;
    match merge_hooks(config, hooks) {
        Ok(after) => {
            proof {
                hooks::lemma_embedded_readable();
                json::lemma_lookup_at(hooks::embedded_config()->Object_0, "hooks"@, 0);
                json::lemma_member_valid(
                    hooks::embedded_config(),
                    "hooks"@,
                    json::depth_limit(),
                );
                merge::law_merge_valid(before, hooks::embedded_hooks(), json::depth_limit());
            }
            let contents: String = render(after).concat("\n");
            proof {
                law_check_after_install(file@, contents@);
                law_install_again_changes_nothing(file@, contents@);
            }
            Ok(
                Installation {
                    contents,
                    message: "Installed hooks to ~/.gemini/settings.json".to_owned(),
                },
            )
        },
        Err(error) => Err(SetupError::Merge(error)),
    }
}

/// A hook equal to one that reports an agent's status reports it too.
proof fn lemma_equal_hook_reports(a: JsonModel, b: JsonModel)
    requires
        json::equal(a, b),
        hook_reports(b),
    ensures
        hook_reports(a),
{
    json::lemma_equal_member(a, b, "command"@);
}

proof fn lemma_equal_group_reports(a: JsonModel, b: JsonModel)
    requires
        json::equal(a, b),
        group_reports(b),
    ensures
        group_reports(a),
{
    json::lemma_equal_member(a, b, "hooks"@);
    let x = json::member(a, "hooks"@)->0;
    let y = json::member(b, "hooks"@)->0;
    let i = choose|i: int| 0 <= i < y->Array_0.len() && hook_reports(#[trigger] y->Array_0[i]);
    assert(json::equal(x->Array_0[i], y->Array_0[i]));
    lemma_equal_hook_reports(x->Array_0[i], y->Array_0[i]);
}

/// Merging hooks that report an agent's status gives settings in which a check
/// finds them.
pub proof fn law_merge_reports(config: JsonModel, added: Seq<(Seq<char>, JsonModel)>)
    requires
        merge::merged(config, added) is Ok,
        events_report(added),
    ensures
        settings_report(merge::merged(config, added)->Ok_0),
{
    let i = choose|i: int| 0 <= i < added.len() && event_reports((#[trigger] added[i]).1);
    merge::law_settings_added(config, added, i);
    let after = merge::merged(config, added)->Ok_0;
    let events = merge::events_of(after)->Ok_0;
    let groups = added[i].1->Array_0;
    let j = choose|j: int| 0 <= j < groups.len() && group_reports(#[trigger] groups[j]);
    let list = json::lookup(events, added[i].0)->0->Array_0;
    assert(json::holds_equal(list, groups[j]));
    let k = choose|k: int| 0 <= k < list.len() && json::equal(#[trigger] list[k], groups[j]);
    lemma_equal_group_reports(list[k], groups[j]);
    let n = json::lemma_lookup_entry(events, added[i].0);
    assert(event_reports(events[n].1));
    assert(json::member(after, "hooks"@) == Some(JsonModel::Object(events)));
}

proof fn lemma_alike_hook_reports(a: JsonModel, b: JsonModel)
    requires
        json::alike(a, b),
        hook_reports(a),
    ensures
        hook_reports(b),
{
    json::lemma_alike_member(a, b, "command"@);
}

proof fn lemma_alike_group_reports(a: JsonModel, b: JsonModel)
    requires
        json::alike(a, b),
        group_reports(a),
    ensures
        group_reports(b),
{
    json::lemma_alike_member(a, b, "hooks"@);
    let x = json::member(a, "hooks"@)->0;
    let y = json::member(b, "hooks"@)->0;
    let i = choose|i: int| 0 <= i < x->Array_0.len() && hook_reports(#[trigger] x->Array_0[i]);
    assert(json::alike(x->Array_0[i], y->Array_0[i]));
    lemma_alike_hook_reports(x->Array_0[i], y->Array_0[i]);
}

/// Settings alike to some in which a check finds the hooks are such settings too.
proof fn lemma_alike_reports(a: JsonModel, b: JsonModel)
    requires
        json::alike(a, b),
        settings_report(a),
    ensures
        settings_report(b),
{
    json::lemma_alike_member(a, b, "hooks"@);
    let x = json::member(a, "hooks"@)->0;
    let y = json::member(b, "hooks"@)->0;
    let i = choose|i: int|
        0 <= i < x->Object_0.len() && event_reports((#[trigger] x->Object_0[i]).1);
    let p = x->Object_0[i].1;
    let q = y->Object_0[i].1;
    assert(json::alike(p, q));
    let j = choose|j: int| 0 <= j < p->Array_0.len() && group_reports(#[trigger] p->Array_0[j]);
    assert(json::alike(p->Array_0[j], q->Array_0[j]));
    lemma_alike_group_reports(p->Array_0[j], q->Array_0[j]);
    assert(group_reports(q->Array_0[j]));
    assert(event_reports(y->Object_0[i].1));
}

/// The embedded hooks report an agent's status.
proof fn lemma_embedded_report()
    ensures
        events_report(hooks::embedded_hooks()),
{
    let command = "workmux set-window-status done"@;
    let hook = hooks::command_hook(command);
    let group = hooks::command_group(command);
    let hooks = seq![hook];
    reveal_strlit("workmux set-window-status done");
    reveal_strlit("workmux set-window-status");
    assert(text::occurs_at(command, "workmux set-window-status"@, 0)) by {
        assert(command.subrange(0, 25) =~= "workmux set-window-status"@);
    }
    json::lemma_lookup_at(hook->Object_0, "command"@, 0);
    assert(hook_reports(hook));
    assert(hook_reports(hooks[0]));
    json::lemma_lookup_at(group->Object_0, "hooks"@, 0);
    assert(group_reports(group));
    let groups = seq![group];
    assert(group_reports(groups[0]));
    assert(event_reports(hooks::embedded_hooks()[0].1));
}

/// After an installation a check of what it wrote finds the hooks, whatever the
/// settings held before.
pub proof fn law_check_after_install(file: FileState, contents: Seq<char>)
    requires
        installed(file) is Ok,
        json::reads_as(contents, installed(file)->Ok_0),
    ensures
        checked(FileState::Present(contents)) == Ok::<_, SetupFault>(StatusCheck::Installed),
{
    lemma_embedded_report();
    law_merge_reports(settings_in(file)->Ok_0, hooks::embedded_hooks());
    lemma_alike_reports(installed(file)->Ok_0, json::parsed(contents)->Ok_0);
}

/// Installing into settings that an installation wrote changes nothing in them:
/// what is read back from the contents stays as it is. That is what the first
/// installation wrote, but for fractions, which may lose their last digits in
/// the text.
pub proof fn law_install_again_changes_nothing(file: FileState, contents: Seq<char>)
    requires
        installed(file) is Ok,
        json::reads_as(contents, installed(file)->Ok_0),
    ensures
        installed(FileState::Present(contents)) == settings_in(FileState::Present(contents)),
        json::all_integral(installed(file)->Ok_0) ==> installed(FileState::Present(contents))
            == installed(file),
{
    let added = hooks::embedded_hooks();
    let back = json::parsed(contents)->Ok_0;
    hooks::lemma_embedded_readable();
    json::lemma_numberless_integral(hooks::embedded_config());
    assert(json::all_integral(hooks::embedded_config()->Object_0[0].1));
    merge::law_merge_again_changes_nothing(settings_in(file)->Ok_0, added, back);
    if json::all_integral(installed(file)->Ok_0) {
        json::law_alike_integral(installed(file)->Ok_0, back);
    }
}

/// Whether the settings hold, for the event at `e` in the group at `g`, a hook at
/// `h` whose command names the status command somewhere.
pub open spec fn reports_at(config: JsonModel, e: int, g: int, h: int) -> bool {
    &&& json::member(config, "hooks"@) matches Some(JsonModel::Object(events))
    &&& 0 <= e < events.len()
    &&& events[e].1 matches JsonModel::Array(groups)
    &&& 0 <= g < groups.len()
    &&& json::member(groups[g], "hooks"@) matches Some(JsonModel::Array(list))
    &&& 0 <= h < list.len()
    &&& json::member(list[h], "command"@) matches Some(JsonModel::Text(command))
    &&& exists|a: Seq<char>, b: Seq<char>|
        command == #[trigger] (a + "workmux set-window-status"@ + b)
}

/// The hooks are found in settings exactly where some event has some group with
/// some hook whose command names the status command.
pub proof fn law_settings_report(config: JsonModel)
    ensures
        settings_report(config) <==> exists|e: int, g: int, h: int| #[trigger]
            reports_at(config, e, g, h),
{
    if settings_report(config) {
        let events = json::member(config, "hooks"@)->0->Object_0;
        let e = choose|e: int| 0 <= e < events.len() && event_reports((#[trigger] events[e]).1);
        let groups = events[e].1->Array_0;
        let g = choose|g: int| 0 <= g < groups.len() && group_reports(#[trigger] groups[g]);
        let list = json::member(groups[g], "hooks"@)->0->Array_0;
        let h = choose|h: int| 0 <= h < list.len() && hook_reports(#[trigger] list[h]);
        text::law_has_part(
            json::member(list[h], "command"@)->0->Text_0,
            "workmux set-window-status"@,
        );
        assert(reports_at(config, e, g, h));
    }
    if exists|e: int, g: int, h: int| #[trigger] reports_at(config, e, g, h) {
        let (e, g, h) = choose|e: int, g: int, h: int| #[trigger] reports_at(config, e, g, h);
        let events = json::member(config, "hooks"@)->0->Object_0;
        let groups = events[e].1->Array_0;
        let list = json::member(groups[g], "hooks"@)->0->Array_0;
        text::law_has_part(
            json::member(list[h], "command"@)->0->Text_0,
            "workmux set-window-status"@,
        );
        assert(hook_reports(list[h]));
        assert(group_reports(groups[g]));
        assert(event_reports(events[e].1));
    }
}

/// A check finds the hooks exactly where the file is there and what is read from
/// it holds one; it fails exactly where the file cannot be read.
pub proof fn law_checked(content: Seq<char>)
    ensures
        checked(FileState::NoHome) == Ok::<_, SetupFault>(StatusCheck::NotInstalled),
        checked(FileState::Missing) == Ok::<_, SetupFault>(StatusCheck::NotInstalled),
        json::parsed(content) matches Err(cause) ==> checked(FileState::Present(content)) == Err::<
            StatusCheck,
            _,
        >(SetupFault::InvalidSettings(cause)),
        json::parsed(content) matches Ok(config) ==> {
            let found = exists|e: int, g: int, h: int| #[trigger] reports_at(config, e, g, h);
            &&& found ==> checked(FileState::Present(content)) == Ok::<_, SetupFault>(
                StatusCheck::Installed,
            )
            &&& !found ==> checked(FileState::Present(content)) == Ok::<_, SetupFault>(
                StatusCheck::NotInstalled,
            )
        },
{
    if let Ok(config) = json::parsed(content) {
        law_settings_report(config);
    }
}

/// An installation needs a home directory and, where there is a file, settings in
/// it that can be read and are an object, whose `hooks` is absent or an object,
/// in which each of the five events is absent or an array. It succeeds wherever
/// it has that.
pub proof fn law_install_succeeds(content: Seq<char>)
    ensures
        installed(FileState::NoHome) == Err::<JsonModel, _>(SetupFault::NoHome),
        installed(FileState::Missing) is Ok,
        json::parsed(content) matches Err(cause) ==> installed(FileState::Present(content)) == Err::<
            JsonModel,
            _,
        >(SetupFault::InvalidSettings(cause)),
        json::parsed(content) matches Ok(config) ==> {
            let found = json::member(config, "hooks"@);
            installed(FileState::Present(content)) is Ok <==> config is Object && (found is None
                || (found->0 is Object && free(found->0->Object_0, "AfterAgent"@) && free(
                found->0->Object_0,
                "AfterTool"@,
            ) && free(found->0->Object_0, "BeforeAgent"@) && free(
                found->0->Object_0,
                "Notification"@,
            ) && free(found->0->Object_0, "SessionStart"@)))
        },
{
    let added = hooks::embedded_hooks();
    assert(added[0].0 == "AfterAgent"@ && added[0].1 is Array);
    assert(added[1].0 == "AfterTool"@ && added[1].1 is Array);
    assert(added[2].0 == "BeforeAgent"@ && added[2].1 is Array);
    assert(added[3].0 == "Notification"@ && added[3].1 is Array);
    assert(added[4].0 == "SessionStart"@ && added[4].1 is Array);
    let none = JsonModel::Object(Seq::empty());
    assert(none->Object_0 == Seq::<(Seq<char>, JsonModel)>::empty());
    json::law_lookup(Seq::<(Seq<char>, JsonModel)>::empty(), "hooks"@);
    merge::law_merge_outcome(none, added);
    if let Ok(config) = json::parsed(content) {
        merge::law_merge_outcome(config, added);
    }
}

/// Whether an event is absent or bound to an array.
pub open spec fn free(events: Seq<(Seq<char>, JsonModel)>, event: Seq<char>) -> bool {
    json::lookup(events, event) is None || json::lookup(events, event)->0 is Array
}

/// An installation adds the embedded hooks to the settings in the file, which are
/// empty where there is none, and reports why they do not fit.
pub proof fn law_installed(content: Seq<char>)
    ensures
        installed(FileState::Missing) == Ok::<_, SetupFault>(
            merge::merged(JsonModel::Object(Seq::empty()), hooks::embedded_hooks())->Ok_0,
        ),
        json::parsed(content) matches Ok(config) ==> match merge::merged(
            config,
            hooks::embedded_hooks(),
        ) {
            Ok(after) => installed(FileState::Present(content)) == Ok::<_, SetupFault>(after),
            Err(fault) => installed(FileState::Present(content)) == Err::<JsonModel, _>(
                SetupFault::Merge(fault),
            ),
        },
{
    law_install_succeeds(content);
}

/// The embedded hooks are for five events. Each has one group with one hook,
/// which is a command that starts with the status command.
pub proof fn law_embedded_hooks(i: int)
    requires
        0 <= i < hooks::embedded_hooks().len(),
    ensures
        hooks::embedded_hooks().len() == 5,
        json::lookup(hooks::embedded_hooks(), "AfterAgent"@) == Some(
            JsonModel::Array(
                seq![
                    JsonModel::Object(
                        seq![
                            (
                                "hooks"@,
                                JsonModel::Array(
                                    seq![
                                        JsonModel::Object(
                                            seq![
                                                (
                                                    "command"@,
                                                    JsonModel::Text(
                                                        "workmux set-window-status done"@,
                                                    ),
                                                ),
                                                ("type"@, JsonModel::Text("command"@)),
                                            ],
                                        ),
                                    ],
                                ),
                            ),
                        ],
                    ),
                ],
            ),
        ),
        ({
            let groups = hooks::embedded_hooks()[i].1;
            let list = json::member(groups->Array_0[0], "hooks"@);
            let command = json::member(list->0->Array_0[0], "command"@);
            &&& groups is Array && groups->Array_0.len() == 1
            &&& list is Some && list->0 is Array && list->0->Array_0.len() == 1
            &&& json::member(list->0->Array_0[0], "type"@) == Some(JsonModel::Text("command"@))
            &&& command is Some && command->0 is Text
            &&& "workmux set-window-status "@.is_prefix_of(command->0->Text_0)
        }),
{
    reveal_strlit("workmux set-window-status ");
    reveal_strlit("workmux set-window-status done");
    reveal_strlit("workmux set-window-status working");
    reveal_strlit("workmux set-window-status waiting");
    reveal_strlit("workmux set-window-status clear");
    reveal_strlit("command");
    reveal_strlit("type");
    let added = hooks::embedded_hooks();
    json::lemma_lookup_at(added, "AfterAgent"@, 0);
    let command = if i == 0 {
        "workmux set-window-status done"@
    } else if i == 1 || i == 2 {
        "workmux set-window-status working"@
    } else if i == 3 {
        "workmux set-window-status waiting"@
    } else {
        "workmux set-window-status clear"@
    };
    assert(added[i].1 == JsonModel::Array(seq![hooks::command_group(command)]));
    let group = hooks::command_group(command);
    let hook = hooks::command_hook(command);
    json::lemma_lookup_at(group->Object_0, "hooks"@, 0);
    json::lemma_lookup_at(hook->Object_0, "command"@, 0);
    assert("command"@.len() != "type"@.len());
    json::lemma_lookup_at(hook->Object_0, "type"@, 1);
    assert("workmux set-window-status "@ =~= command.subrange(0, 26));
}

/// What each error is reported as.
pub proof fn law_messages(error: SetupError)
    ensures
        error is NoHome ==> fault_text(error@) == "Could not determine home directory"@,
        error is InvalidSettings ==> fault_text(error@)
            == "~/.gemini/settings.json is not valid JSON"@,
        error is MissingHooks ==> fault_text(error@) == "hooks config missing hooks key"@,
        error matches SetupError::Merge(MergeError::RootNotObject) ==> fault_text(error@)
            == "settings.json root is not an object"@,
        error matches SetupError::Merge(MergeError::HooksNotObject) ==> fault_text(error@)
            == "settings.json hooks is not an object"@,
        error matches SetupError::Merge(MergeError::EventNotArray(event)) ==> fault_text(error@)
            == "hooks."@ + event@ + " is not an array"@,
        error is NoHome <==> error@ is NoHome,
        error matches SetupError::InvalidSettings(cause) ==> error@ == SetupFault::InvalidSettings(
            json::error_text(cause),
        ),
        error is MissingHooks <==> error@ is MissingHooks,
        error matches SetupError::Merge(cause) ==> error@ == SetupFault::Merge(cause@),
        error matches SetupError::Merge(MergeError::EventNotArray(event)) ==> error@
            == SetupFault::Merge(MergeFault::EventNotArray(event@)),
        error matches SetupError::Merge(MergeError::RootNotObject) ==> error@ == SetupFault::Merge(
            MergeFault::RootNotObject,
        ),
        error matches SetupError::Merge(MergeError::HooksNotObject) ==> error@ == SetupFault::Merge(
            MergeFault::HooksNotObject,
        ),
{
}

/// The state of a file holds what the file holds.
pub proof fn law_file_state(file: SettingsFile)
    ensures
        file is NoHome <==> file@ is NoHome,
        file is Missing <==> file@ is Missing,
        file matches SettingsFile::Present(content) ==> file@ == FileState::Present(content@),
{
}

/// No event has embedded hooks twice.
proof fn lemma_embedded_distinct()
    ensures
        forall|j: int, k: int|
            0 <= j < k < hooks::embedded_hooks().len() ==> (
            #[trigger] hooks::embedded_hooks()[j]).0 != (#[trigger] hooks::embedded_hooks()[k]).0,
{
    reveal_strlit("AfterAgent");
    reveal_strlit("AfterTool");
    reveal_strlit("BeforeAgent");
    reveal_strlit("Notification");
    reveal_strlit("SessionStart");
    assert("AfterAgent"@[5] != "AfterTool"@[5]);
    assert("AfterAgent"@[0] != "BeforeAgent"@[0]);
    assert("AfterTool"@[0] != "BeforeAgent"@[0]);
    assert("Notification"@[0] != "BeforeAgent"@[0]);
    assert("SessionStart"@[0] != "BeforeAgent"@[0]);
    assert("AfterAgent"@[0] != "Notification"@[0] && "AfterAgent"@[0] != "SessionStart"@[0]);
    assert("AfterTool"@[0] != "Notification"@[0] && "AfterTool"@[0] != "SessionStart"@[0]);
    assert("Notification"@[0] != "SessionStart"@[0]);
}

/// An installation leaves every other setting and every other event as it was,
/// and gives an embedded event that was absent its one group.
pub proof fn law_install_keeps(content: Seq<char>, i: int, event: Seq<char>, key: Seq<char>)
    requires
        json::parsed(content) is Ok,
        installed(FileState::Present(content)) is Ok,
        0 <= i < 5,
    ensures
        ({
            let config = json::parsed(content)->Ok_0;
            let after = installed(FileState::Present(content))->Ok_0;
            let found = json::member(after, "hooks"@);
            let old_events = match json::member(config, "hooks"@) {
                Some(JsonModel::Object(old_events)) => old_events,
                _ => Seq::empty(),
            };
            let (name, groups) = hooks::embedded_hooks()[i];
            &&& found is Some && found->0 is Object
            &&& key != "hooks"@ ==> json::member(after, key) == json::member(config, key)
            &&& event != "AfterAgent"@ && event != "AfterTool"@ && event != "BeforeAgent"@ && event
                != "Notification"@ && event != "SessionStart"@ ==> json::lookup(
                found->0->Object_0,
                event,
            ) == json::lookup(old_events, event)
            &&& json::lookup(old_events, name) is None ==> json::lookup(found->0->Object_0, name)
                == Some(groups)
        }),
{
    let config = json::parsed(content)->Ok_0;
    let added = hooks::embedded_hooks();
    let name = added[i].0;
    let none = Seq::<(Seq<char>, JsonModel)>::empty();
    lemma_embedded_distinct();
    merge::law_merge_result(config, added, name, key);
    merge::law_merge_result(config, added, event, key);
    json::law_lookup(none, name);
    json::law_lookup(none, event);
    assert(added[i].1 is Array && added[i].0 == name);
    if event != "AfterAgent"@ && event != "AfterTool"@ && event != "BeforeAgent"@ && event
        != "Notification"@ && event != "SessionStart"@ {
        assert forall|j: int|
            0 <= j < added.len() && (#[trigger] added[j]).1 is Array implies added[j].0 != event by {}
    }
}

/// An installation leaves the groups of an embedded event that was there in their
/// order, and puts the embedded group behind them exactly where none of them
/// equals it.
pub proof fn law_install_adds(
    content: Seq<char>,
    i: int,
    old_events: Seq<(Seq<char>, JsonModel)>,
    groups: Seq<JsonModel>,
    group: JsonModel,
)
    requires
        json::parsed(content) is Ok,
        installed(FileState::Present(content)) is Ok,
        0 <= i < 5,
        json::member(json::parsed(content)->Ok_0, "hooks"@) == Some(JsonModel::Object(old_events)),
        json::lookup(old_events, hooks::embedded_hooks()[i].0) == Some(JsonModel::Array(groups)),
        hooks::embedded_hooks()[i].1 == JsonModel::Array(seq![group]),
    ensures
        ({
            let found = json::member(installed(FileState::Present(content))->Ok_0, "hooks"@);
            let now = json::lookup(found->0->Object_0, hooks::embedded_hooks()[i].0);
            &&& found is Some && found->0 is Object
            &&& now == Some(JsonModel::Array(groups)) || now == Some(
                JsonModel::Array(groups.push(group)),
            )
            &&& now == Some(JsonModel::Array(groups)) <==> exists|n: int|
                0 <= n < groups.len() && json::equal(#[trigger] groups[n], group)
        }),
{
    let config = json::parsed(content)->Ok_0;
    let added = hooks::embedded_hooks();
    lemma_embedded_distinct();
    merge::law_merge_result(config, added, added[i].0, "hooks"@);
    assert(added[i].1 is Array);
    assert(added[i].1->Array_0 == seq![group]);
    merge::law_one_group_added(groups, group);
    assert(groups.push(group).len() != groups.len());
}

} // verus!
