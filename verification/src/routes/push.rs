//! Push rules and pushers.
use crate::error::{internal, invalid_param, not_found, ApiError, ApiErrorV};
use crate::ids::{check_room_id, check_user_id, is_room_id, is_user_id};
use crate::json::{as_text, copy_fields, entry, field, field2, fields_view, get, remove, Json, JsonV};
use crate::routes::media::{is_web, parsed_scheme, url_scheme};
use crate::text::{ends_with, has_suffix, join_texts, opt_str, same_text};
use vstd::prelude::*;

verus! {

// -- rulesets -----------------------------------------------------------------

/// A user's push rules.
#[verifier::external_type_specification]
#[verifier::external_body]
pub struct ExRuleset(ruma::push::Ruleset);

/// What a rule does with an event.
#[verifier::external_type_specification]
#[verifier::external_body]
pub struct ExAction(ruma::push::Action);

/// What a rule asks of an event.
#[verifier::external_type_specification]
#[verifier::external_body]
pub struct ExPushCondition(ruma::push::PushCondition);

/// A rule.
pub struct RuleV {
    pub rule_id: Seq<char>,
    /// The server brought it.
    pub default: bool,
    pub enabled: bool,
    pub actions: Seq<ruma::push::Action>,
    /// What a content rule looks for.
    pub pattern: Option<Seq<char>>,
    /// What an override or underride rule asks.
    pub conditions: Seq<ruma::push::PushCondition>,
}

/// The rules of a set by kind, those of the highest priority first.
pub uninterp spec fn rules_in(r: ruma::push::Ruleset) -> Map<Seq<char>, Seq<RuleV>>;

/// The rules that the server brings for a user.
pub uninterp spec fn default_rules(user: Seq<char>) -> Map<Seq<char>, Seq<RuleV>>;

/// The rules of a kind.
pub open spec fn rules_of(rules: Map<Seq<char>, Seq<RuleV>>, kind: Seq<char>) -> Seq<RuleV> {
    if rules.dom().contains(kind) {
        rules[kind]
    } else {
        Seq::empty()
    }
}

/// Where the rule with an ID stands, from place `i` on.
pub open spec fn rule_place(list: Seq<RuleV>, id: Seq<char>, i: int) -> Option<int>
    decreases list.len() - i,
{
    if i < 0 || i >= list.len() {
        None
    } else if list[i].rule_id == id {
        Some(i)
    } else {
        rule_place(list, id, i + 1)
    }
}

/// The rule of a kind with an ID.
pub open spec fn rule_at(
    rules: Map<Seq<char>, Seq<RuleV>>,
    kind: Seq<char>,
    id: Seq<char>,
) -> Option<RuleV> {
    match rule_place(rules_of(rules, kind), id, 0) {
        Some(i) => Some(rules_of(rules, kind)[i]),
        None => None,
    }
}

/// The rules without one.
pub open spec fn without_rule(
    rules: Map<Seq<char>, Seq<RuleV>>,
    kind: Seq<char>,
    id: Seq<char>,
) -> Map<Seq<char>, Seq<RuleV>> {
    match rule_place(rules_of(rules, kind), id, 0) {
        Some(i) => rules.insert(kind, rules_of(rules, kind).remove(i)),
        None => rules,
    }
}

/// The rules with another in the place of the one with its ID.
pub open spec fn with_changed(
    rules: Map<Seq<char>, Seq<RuleV>>,
    kind: Seq<char>,
    rule: RuleV,
) -> Map<Seq<char>, Seq<RuleV>> {
    match rule_place(rules_of(rules, kind), rule.rule_id, 0) {
        Some(i) => rules.insert(kind, rules_of(rules, kind).update(i, rule)),
        None => rules,
    }
}

/// The rules with a user's rule put in: in the place of the one with its ID,
/// and then enabled as that was, or else at the top; below the first rule,
/// where it is an override rule.
pub open spec fn with_rule(
    rules: Map<Seq<char>, Seq<RuleV>>,
    kind: Seq<char>,
    rule: RuleV,
) -> Map<Seq<char>, Seq<RuleV>> {
    let list = rules_of(rules, kind);
    let top: int = if kind == "override"@ {
        1
    } else {
        0
    };
    match rule_place(list, rule.rule_id, 0) {
        Some(i) => rules.insert(kind, list.update(i, RuleV { enabled: list[i].enabled, ..rule })),
        None => rules.insert(kind, list.insert(top, rule)),
    }
}

/// A rule as a user makes it.
pub open spec fn user_rule(
    id: Seq<char>,
    actions: Seq<ruma::push::Action>,
    pattern: Option<Seq<char>>,
    conditions: Seq<ruma::push::PushCondition>,
) -> RuleV {
    RuleV { rule_id: id, default: false, enabled: true, actions, pattern, conditions }
}

/// `ruma::push::Ruleset::server_default`: the rules that the server brings.
/// Which rules these are is named and not stated.
#[verifier::external_body]
fn server_default(user_id: &str) -> (r: ruma::push::Ruleset)
    requires
        is_user_id(user_id@),
    ensures
        rules_in(r) == default_rules(user_id@),
{
    ruma::push::Ruleset::server_default(<&ruma::UserId>::try_from(user_id).expect("a user ID"))
}

/// Can a rule be removed? It must be there, and not be the server's.
pub open spec fn is_removable(
    rules: Map<Seq<char>, Seq<RuleV>>,
    kind: Seq<char>,
    id: Seq<char>,
) -> bool {
    rule_at(rules, kind, id) matches Some(x) && !x.default
}

/// `ruma::push::Ruleset::remove`, asked only whether it succeeds: it removes a
/// rule that is there and that the server did not bring, and keeps the order of
/// the others.
#[verifier::external_body]
fn remove_rule(rules: &mut ruma::push::Ruleset, kind: &str, rule_id: &str) -> (r: bool)
    ensures
        r == is_removable(rules_in(*old(rules)), kind@, rule_id@),
        rules_in(*final(rules)) == (if r {
            without_rule(rules_in(*old(rules)), kind@, rule_id@)
        } else {
            rules_in(*old(rules))
        }),
{
    rules.remove(ruma::push::RuleKind::from(kind), rule_id).is_ok()
}

/// `ruma::push::Ruleset::set_enabled`, asked only whether it succeeds: it
/// switches a rule that is there, in its place.
#[verifier::external_body]
fn set_rule_enabled(
    rules: &mut ruma::push::Ruleset,
    kind: &str,
    rule_id: &str,
    enabled: bool,
) -> (r: bool)
    ensures
        match rule_at(rules_in(*old(rules)), kind@, rule_id@) {
            Some(x) => r && rules_in(*final(rules)) == with_changed(
                rules_in(*old(rules)),
                kind@,
                (RuleV { enabled, ..x }),
            ),
            None => !r && rules_in(*final(rules)) == rules_in(*old(rules)),
        },
{
    rules.set_enabled(ruma::push::RuleKind::from(kind), rule_id, enabled).is_ok()
}

/// `ruma::push::Ruleset::set_actions`, asked only whether it succeeds: it gives
/// a rule that is there other actions, in its place.
#[verifier::external_body]
fn set_rule_actions(
    rules: &mut ruma::push::Ruleset,
    kind: &str,
    rule_id: &str,
    actions: Vec<ruma::push::Action>,
) -> (r: bool)
    ensures
        match rule_at(rules_in(*old(rules)), kind@, rule_id@) {
            Some(x) => r && rules_in(*final(rules)) == with_changed(
                rules_in(*old(rules)),
                kind@,
                (RuleV { actions: actions@, ..x }),
            ),
            None => !r && rules_in(*final(rules)) == rules_in(*old(rules)),
        },
{
    rules.set_actions(ruma::push::RuleKind::from(kind), rule_id, actions).is_ok()
}

/// What is wrong with the ID of a rule that is put in.
pub open spec fn rule_id_fault(id: Seq<char>) -> Option<Seq<char>> {
    if id.len() > 0 && id[0] == '.' {
        Some("rule IDs starting with a dot are reserved for server-default rules"@)
    } else if id.contains('/') || id.contains('\\') {
        Some("invalid rule ID"@)
    } else {
        None
    }
}

/// What becomes of the rules when one is put in: nothing where its ID is
/// refused.
pub open spec fn rules_after(
    rules: Map<Seq<char>, Seq<RuleV>>,
    kind: Seq<char>,
    rule: RuleV,
) -> Map<Seq<char>, Seq<RuleV>> {
    if rule_id_fault(rule.rule_id) is None {
        with_rule(rules, kind, rule)
    } else {
        rules
    }
}

pub open spec fn unit_fault(r: Result<(), String>) -> Option<Seq<char>> {
    match r {
        Ok(_) => None,
        Err(e) => Some(e@),
    }
}

/// `ruma::push::Ruleset::insert` of a room rule, placed by default: it refuses
/// an ID that is reserved or malformed, and else puts the rule in.
#[verifier::external_body]
fn insert_room_rule(
    rules: &mut ruma::push::Ruleset,
    room_id: &str,
    actions: Vec<ruma::push::Action>,
) -> (r: Result<(), String>)
    requires
        is_room_id(room_id@),
    ensures
        unit_fault(r) == rule_id_fault(room_id@),
        rules_in(*final(rules)) == rules_after(
            rules_in(*old(rules)),
            "room"@,
            user_rule(room_id@, actions@, None, Seq::empty()),
        ),
{
    let id = ruma::OwnedRoomId::try_from(room_id).expect("a room ID");
    let rule = ruma::push::NewPushRule::Room(ruma::push::NewSimplePushRule::new(id, actions));
    rules.insert(rule, None, None).map_err(|e| e.to_string())
}

/// `ruma::push::Ruleset::insert` of a sender rule, placed by default.
#[verifier::external_body]
fn insert_sender_rule(
    rules: &mut ruma::push::Ruleset,
    user_id: &str,
    actions: Vec<ruma::push::Action>,
) -> (r: Result<(), String>)
    requires
        is_user_id(user_id@),
    ensures
        unit_fault(r) == rule_id_fault(user_id@),
        rules_in(*final(rules)) == rules_after(
            rules_in(*old(rules)),
            "sender"@,
            user_rule(user_id@, actions@, None, Seq::empty()),
        ),
{
    let id = ruma::OwnedUserId::try_from(user_id).expect("a user ID");
    let rule = ruma::push::NewPushRule::Sender(ruma::push::NewSimplePushRule::new(id, actions));
    rules.insert(rule, None, None).map_err(|e| e.to_string())
}

/// `ruma::push::Ruleset::insert` of a content rule, placed by default.
#[verifier::external_body]
fn insert_content_rule(
    rules: &mut ruma::push::Ruleset,
    rule_id: &str,
    pattern: &str,
    actions: Vec<ruma::push::Action>,
) -> (r: Result<(), String>)
    ensures
        unit_fault(r) == rule_id_fault(rule_id@),
        rules_in(*final(rules)) == rules_after(
            rules_in(*old(rules)),
            "content"@,
            user_rule(rule_id@, actions@, Some(pattern@), Seq::empty()),
        ),
{
    let rule = ruma::push::NewPatternedPushRule::new(
        rule_id.to_owned(),
        pattern.to_owned(),
        actions,
    );
    rules.insert(ruma::push::NewPushRule::Content(rule), None, None).map_err(|e| e.to_string())
}

/// `ruma::push::Ruleset::insert` of an override rule, placed by default: below
/// the first of them, so there must be one.
#[verifier::external_body]
fn insert_override_rule(
    rules: &mut ruma::push::Ruleset,
    rule_id: &str,
    conditions: Vec<ruma::push::PushCondition>,
    actions: Vec<ruma::push::Action>,
) -> (r: Result<(), String>)
    requires
        rules_of(rules_in(*old(rules)), "override"@).len() > 0,
    ensures
        unit_fault(r) == rule_id_fault(rule_id@),
        rules_in(*final(rules)) == rules_after(
            rules_in(*old(rules)),
            "override"@,
            user_rule(rule_id@, actions@, None, conditions@),
        ),
{
    let rule = ruma::push::NewConditionalPushRule::new(rule_id.to_owned(), conditions, actions);
    rules.insert(ruma::push::NewPushRule::Override(rule), None, None).map_err(|e| e.to_string())
}

/// `ruma::push::Ruleset::insert` of an underride rule, placed by default.
#[verifier::external_body]
fn insert_underride_rule(
    rules: &mut ruma::push::Ruleset,
    rule_id: &str,
    conditions: Vec<ruma::push::PushCondition>,
    actions: Vec<ruma::push::Action>,
) -> (r: Result<(), String>)
    ensures
        unit_fault(r) == rule_id_fault(rule_id@),
        rules_in(*final(rules)) == rules_after(
            rules_in(*old(rules)),
            "underride"@,
            user_rule(rule_id@, actions@, None, conditions@),
        ),
{
    let rule = ruma::push::NewConditionalPushRule::new(rule_id.to_owned(), conditions, actions);
    rules.insert(ruma::push::NewPushRule::Underride(rule), None, None).map_err(|e| e.to_string())
}

/// What an action is.
pub enum ActionV {
    Notify,
    Sound(Seq<char>),
    Highlight(bool),
    Other,
}

/// What an action of `ruma` is: its variant, and what that holds.
pub uninterp spec fn action_in(a: ruma::push::Action) -> ActionV;

/// Does a condition of `ruma` ask for the user's display name in the body? It is
/// the variant `PushCondition::ContainsDisplayName`.
pub uninterp spec fn asks_for_display_name(c: ruma::push::PushCondition) -> bool;

/// `ruma::push::Action::Notify`.
#[verifier::external_body]
pub(crate) fn notify_action() -> (r: ruma::push::Action)
    ensures
        action_in(r) == ActionV::Notify,
{
    ruma::push::Action::Notify
}

/// `ruma::push::Action::SetTweak` with `ruma::push::Tweak::Sound`.
#[verifier::external_body]
pub(crate) fn sound_action(sound: &str) -> (r: ruma::push::Action)
    ensures
        action_in(r) == ActionV::Sound(sound@),
{
    ruma::push::Action::SetTweak(ruma::push::Tweak::Sound(sound.to_owned()))
}

/// `ruma::push::Action::SetTweak` with `ruma::push::Tweak::Highlight`.
#[verifier::external_body]
pub(crate) fn highlight_action(on: bool) -> (r: ruma::push::Action)
    ensures
        action_in(r) == ActionV::Highlight(on),
{
    ruma::push::Action::SetTweak(ruma::push::Tweak::Highlight(on))
}

/// `ruma::push::PushCondition::ContainsDisplayName`.
#[verifier::external_body]
#[allow(deprecated)]
pub(crate) fn display_name_condition() -> (r: ruma::push::PushCondition)
    ensures
        asks_for_display_name(r),
{
    ruma::push::PushCondition::ContainsDisplayName
}

/// The rules with another one at the end, unless there is one with its ID.
pub open spec fn with_appended(
    rules: Map<Seq<char>, Seq<RuleV>>,
    kind: Seq<char>,
    rule: RuleV,
) -> Map<Seq<char>, Seq<RuleV>> {
    let list = rules_of(rules, kind);
    match rule_place(list, rule.rule_id, 0) {
        Some(_) => rules,
        None => rules.insert(kind, list.push(rule)),
    }
}

/// A rule as the server brings it.
pub open spec fn server_rule(
    id: Seq<char>,
    actions: Seq<ruma::push::Action>,
    pattern: Option<Seq<char>>,
    conditions: Seq<ruma::push::PushCondition>,
) -> RuleV {
    RuleV { rule_id: id, default: true, enabled: true, actions, pattern, conditions }
}

/// `IndexSet::insert` on the override rules of a `ruma::push::Ruleset`: a rule
/// whose ID is not there goes to the end, and else nothing changes.
#[verifier::external_body]
pub(crate) fn append_override_rule(
    rules: &mut ruma::push::Ruleset,
    rule_id: &str,
    default: bool,
    enabled: bool,
    conditions: Vec<ruma::push::PushCondition>,
    actions: Vec<ruma::push::Action>,
)
    ensures
        rules_in(*final(rules)) == with_appended(
            rules_in(*old(rules)),
            "override"@,
            (RuleV {
                rule_id: rule_id@,
                default,
                enabled,
                actions: actions@,
                pattern: None,
                conditions: conditions@,
            }),
        ),
{
    let rule_id = rule_id.to_owned();
    let rule =
        ruma::push::ConditionalPushRuleInit { actions, default, enabled, rule_id, conditions };
    rules.override_.insert(rule.into());
}

/// `IndexSet::insert` on the content rules of a `ruma::push::Ruleset`: a rule
/// whose ID is not there goes to the end, and else nothing changes.
#[verifier::external_body]
pub(crate) fn append_content_rule(
    rules: &mut ruma::push::Ruleset,
    rule_id: &str,
    default: bool,
    enabled: bool,
    pattern: &str,
    actions: Vec<ruma::push::Action>,
)
    ensures
        rules_in(*final(rules)) == with_appended(
            rules_in(*old(rules)),
            "content"@,
            (RuleV {
                rule_id: rule_id@,
                default,
                enabled,
                actions: actions@,
                pattern: Some(pattern@),
                conditions: Seq::empty(),
            }),
        ),
{
    let (rule_id, pattern) = (rule_id.to_owned(), pattern.to_owned());
    let rule = ruma::push::PatternedPushRuleInit { actions, default, enabled, rule_id, pattern };
    rules.content.insert(rule.into());
}

/// The text of a member of a JSON object, from the text of the object.
pub uninterp spec fn json_member(json: Seq<char>, key: Seq<char>) -> Option<Seq<char>>;

/// The rules that a JSON text holds, where `ruma` can read them.
pub uninterp spec fn parsed_rules(json: Seq<char>) -> Option<Map<Seq<char>, Seq<RuleV>>>;

/// `serde_json::Value::get` on the value that a text holds, the member written out
/// again: `None` for a text that is no JSON, for a value that is no object, and
/// for an object without the member. How a text is read and written is named and
/// not stated.
#[verifier::external_body]
fn member_text(json: &str, key: &str) -> (r: Option<String>)
    ensures
        match json_member(json@, key@) {
            Some(t) => r matches Some(x) && x@ == t,
            None => r is None,
        },
{
    serde_json::from_str::<serde_json::Value>(json).ok()?.get(key).map(|v| v.to_string())
}

/// `serde_json::from_value` into a `ruma::push::Ruleset`, of the value that a text
/// holds. Which texts it reads, and as which rules, is named and not stated.
#[verifier::external_body]
fn read_rules(json: &str) -> (r: Option<ruma::push::Ruleset>)
    ensures
        match parsed_rules(json@) {
            Some(m) => r matches Some(x) && rules_in(x) == m,
            None => r is None,
        },
{
    serde_json::from_str(json).and_then(serde_json::from_value::<ruma::push::Ruleset>).ok()
}

/// The rules that a user stored, of the text of their account data.
pub open spec fn stored_rules(stored: Option<Seq<char>>) -> Option<Map<Seq<char>, Seq<RuleV>>> {
    match stored {
        Some(content) => match json_member(content, "global"@) {
            Some(global) => parsed_rules(global),
            None => None,
        },
        None => None,
    }
}

/// The rules of a user: those that they stored, or what the server brings.
pub open spec fn loaded_rules(stored: Option<Seq<char>>, user: Seq<char>) -> Map<
    Seq<char>,
    Seq<RuleV>,
> {
    match stored_rules(stored) {
        Some(m) => m,
        None => default_rules(user),
    }
}

/// The rules that were read, or what the server brings.
pub fn rules_or_default(read: Option<ruma::push::Ruleset>, user_id: &str) -> (r:
    ruma::push::Ruleset)
    requires
        is_user_id(user_id@),
    ensures
        match read {
            Some(s) => r == s,
            None => rules_in(r) == default_rules(user_id@),
        },
{
    match read {
        Some(s) => s,
        None => server_default(user_id),
    }
}

/// The user's rules: what they stored under `global` in the account data of
/// which this is the text, or what the server brings where there is nothing that
/// can be read.
pub fn load_ruleset(stored: Option<&str>, user_id: &str) -> (r: ruma::push::Ruleset)
    requires
        is_user_id(user_id@),
    ensures
        rules_in(r) == loaded_rules(opt_str(stored), user_id@),
{
    let read = match stored {
        Some(content) => match member_text(content, "global") {
            Some(global) => read_rules(global.as_str()),
            None => None,
        },
        None => None,
    };
    rules_or_default(read, user_id)
}

/// [`load_ruleset`] for a text that may be no user ID: `None` where it is none.
pub fn user_ruleset(stored: Option<&str>, user_id: &str) -> (r: Option<ruma::push::Ruleset>)
    ensures
        r is Some <==> is_user_id(user_id@),
        r matches Some(x) ==> rules_in(x) == loaded_rules(opt_str(stored), user_id@),
{
    if check_user_id(user_id).is_err() {
        return None;
    }
    Some(load_ruleset(stored, user_id))
}

// -- reading rules ------------------------------------------------------------

/// The JSON text of a set of rules, or why it cannot be written.
pub uninterp spec fn written_rules(rules: Map<Seq<char>, Seq<RuleV>>) -> Result<
    Seq<char>,
    Seq<char>,
>;

/// The JSON text of a rule of a kind, or why it cannot be written.
pub uninterp spec fn written_rule(kind: Seq<char>, rule: RuleV) -> Result<Seq<char>, Seq<char>>;

/// The JSON text of a list of actions, or why it cannot be written.
pub uninterp spec fn written_actions(actions: Seq<ruma::push::Action>) -> Result<
    Seq<char>,
    Seq<char>,
>;

/// What a text, or the fault in its place, comes to.
pub open spec fn text_view(r: Result<String, String>) -> Result<Seq<char>, Seq<char>> {
    match r {
        Ok(t) => Ok(t@),
        Err(t) => Err(t@),
    }
}

/// Is there nothing in a rule but what is known of actions and conditions? Its
/// actions notify, sound or highlight, and its conditions ask for the display name.
pub open spec fn is_plain_rule(rule: RuleV) -> bool {
    &&& forall|i: int|
        0 <= i < rule.actions.len() ==> !(action_in(#[trigger] rule.actions[i]) is Other)
    &&& forall|i: int|
        0 <= i < rule.conditions.len() ==> asks_for_display_name(#[trigger] rule.conditions[i])
}

/// Is every rule plain?
pub open spec fn are_plain(rules: Map<Seq<char>, Seq<RuleV>>) -> bool {
    forall|kind: Seq<char>, i: int|
        0 <= i < rules_of(rules, kind).len() ==> is_plain_rule(#[trigger] rules_of(rules, kind)[i])
}

/// Are rules that were written and held under `global` read as the same rules?
pub open spec fn reads_back(
    rules: Map<Seq<char>, Seq<RuleV>>,
    text: Result<Seq<char>, Seq<char>>,
) -> bool {
    text matches Ok(t) && stored_rules(Some(object_text("global"@, t))) == Some(rules)
}

/// `serde_json::to_string` of a `ruma::push::Ruleset`. How rules are written is
/// named and not stated. Plain rules, held under `global`, are read as the same
/// rules again; of rules with other actions and conditions this is not stated,
/// since numbers in them may come back in another form.
#[verifier::external_body]
fn write_rules(rules: &ruma::push::Ruleset) -> (r: Result<String, String>)
    ensures
        text_view(r) == written_rules(rules_in(*rules)),
        are_plain(rules_in(*rules)) ==> reads_back(rules_in(*rules), text_view(r)),
{
    serde_json::to_string(rules).map_err(|e| e.to_string())
}

/// `serde_json::to_string` of the `ruma::api::client::push::PushRule` that
/// `ruma::push::Ruleset::get` finds: it has the rule's own members and no others.
/// How a rule is written is named and not stated.
#[verifier::external_body]
fn write_rule(rules: &ruma::push::Ruleset, kind: &str, rule_id: &str) -> (r: Option<
    Result<String, String>,
>)
    ensures
        match rule_at(rules_in(*rules), kind@, rule_id@) {
            Some(x) => r matches Some(t) && text_view(t) == written_rule(kind@, x),
            None => r is None,
        },
{
    let rule = rules.get(ruma::push::RuleKind::from(kind), rule_id)?;
    let rule = ruma::api::client::push::PushRule::from(rule);
    Some(serde_json::to_string(&rule).map_err(|e| e.to_string()))
}

/// `serde_json::to_string` of a list of `ruma::push::Action`. How an action is
/// written is named and not stated.
#[verifier::external_body]
fn write_actions(actions: &Vec<ruma::push::Action>) -> (r: Result<String, String>)
    ensures
        text_view(r) == written_actions(actions@),
{
    serde_json::to_string(actions).map_err(|e| e.to_string())
}

/// `ruma::push::Ruleset::get`, asked whether the rule is enabled and for its
/// actions, where there is such a rule.
#[verifier::external_body]
fn get_rule(rules: &ruma::push::Ruleset, kind: &str, rule_id: &str) -> (r: Option<
    (bool, Vec<ruma::push::Action>),
>)
    ensures
        match rule_at(rules_in(*rules), kind@, rule_id@) {
            Some(x) => r matches Some(v) && v.0 == x.enabled && v.1@ == x.actions,
            None => r is None,
        },
{
    let kind = ruma::push::RuleKind::from(kind);
    rules.get(kind, rule_id).map(|rule| (rule.enabled(), rule.actions().to_vec()))
}

/// What is answered with a text that was to be written.
pub open spec fn answered(text: Result<Seq<char>, Seq<char>>) -> Result<Seq<char>, ApiErrorV> {
    match text {
        Ok(t) => Ok(t),
        Err(e) => Err(internal(e)),
    }
}

fn answer(text: Result<String, String>) -> (r: Result<String, ApiError>)
    ensures
        text_outcome(r) == answered(text_view(text)),
{
    match text {
        Ok(t) => Ok(t),
        Err(e) => Err(ApiError::internal(e.as_str())),
    }
}

/// A text, or the error in its place.
pub open spec fn text_outcome(r: Result<String, ApiError>) -> Result<Seq<char>, ApiErrorV> {
    match r {
        Ok(t) => Ok(t@),
        Err(e) => Err(e@),
    }
}

/// The JSON text of an object with one member, of the text of the member.
pub open spec fn object_text(key: Seq<char>, value: Seq<char>) -> Seq<char> {
    "{\""@ + key + "\":"@ + value + "}"@
}

fn object_with(key: &str, value: &str) -> (r: String)
    ensures
        r@ == object_text(key@, value@),
{
    let head = join_texts(join_texts("{\"", key).as_str(), "\":");
    join_texts(join_texts(head.as_str(), value).as_str(), "}")
}

/// The rules as clients see them and as they are stored: the JSON text of an
/// object that holds them under `global`. Plain rules are loaded as they were
/// stored.
pub fn get_pushrules(rules: &ruma::push::Ruleset) -> (r: Result<String, ApiError>)
    ensures
        text_outcome(r) == (match written_rules(rules_in(*rules)) {
            Ok(t) => Ok::<Seq<char>, ApiErrorV>(object_text("global"@, t)),
            Err(e) => Err(internal(e)),
        }),
        are_plain(rules_in(*rules)) ==> r is Ok,
        are_plain(rules_in(*rules)) ==> forall|user: Seq<char>|
            #[trigger] loaded_rules(Some(r->Ok_0@), user) == rules_in(*rules),
{
    match write_rules(rules) {
        Ok(t) => Ok(object_with("global", t.as_str())),
        Err(e) => Err(ApiError::internal(e.as_str())),
    }
}

/// What a client sees of a rule: its JSON text, where there is such a rule.
pub open spec fn shown_rule(
    rules: Map<Seq<char>, Seq<RuleV>>,
    kind: Seq<char>,
    id: Seq<char>,
) -> Result<Seq<char>, ApiErrorV> {
    match rule_at(rules, kind, id) {
        Some(x) => answered(written_rule(kind, x)),
        None => Err(not_found("No such push rule"@)),
    }
}

/// One rule, looked up by kind and ID: its JSON text.
pub fn find_rule(rules: &ruma::push::Ruleset, kind: &str, rule_id: &str) -> (r: Result<
    String,
    ApiError,
>)
    ensures
        text_outcome(r) == shown_rule(rules_in(*rules), kind@, rule_id@),
{
    match write_rule(rules, kind, rule_id) {
        Some(t) => answer(t),
        None => Err(ApiError::not_found("No such push rule")),
    }
}

/// What a client sees of an attribute of a rule: the JSON text of an object that
/// holds it.
pub open spec fn shown_attr(
    rules: Map<Seq<char>, Seq<RuleV>>,
    kind: Seq<char>,
    id: Seq<char>,
    attr: Seq<char>,
) -> Result<Seq<char>, ApiErrorV> {
    match rule_at(rules, kind, id) {
        Some(x) => if attr == "enabled"@ {
            Ok(
                object_text(
                    attr,
                    if x.enabled {
                        "true"@
                    } else {
                        "false"@
                    },
                ),
            )
        } else if attr == "actions"@ {
            match written_actions(x.actions) {
                Ok(t) => Ok(object_text(attr, t)),
                Err(e) => Err(internal(e)),
            }
        } else {
            Err(invalid_param("Unknown rule attribute"@))
        },
        None => Err(not_found("No such push rule"@)),
    }
}

/// One attribute of a rule: whether it is enabled, or its actions.
pub fn get_pushrule_attr(
    rules: &ruma::push::Ruleset,
    kind: &str,
    rule_id: &str,
    attr: &str,
) -> (r: Result<String, ApiError>)
    ensures
        text_outcome(r) == shown_attr(rules_in(*rules), kind@, rule_id@, attr@),
{
    let (enabled, actions) = match get_rule(rules, kind, rule_id) {
        Some(v) => v,
        None => {
            return Err(ApiError::not_found("No such push rule"));
        },
    };
    if same_text(attr, "enabled") {
        let value = if enabled {
            "true"
        } else {
            "false"
        };
        return Ok(object_with(attr, value));
    }
    if same_text(attr, "actions") {
        return match write_actions(&actions) {
            Ok(t) => Ok(object_with(attr, t.as_str())),
            Err(e) => Err(ApiError::internal(e.as_str())),
        };
    }
    Err(ApiError::invalid_param("Unknown rule attribute"))
}

// -- changing rules -----------------------------------------------------------

/// Deletes a rule; the server's own stay.
pub fn delete_pushrule(rules: &mut ruma::push::Ruleset, kind: &str, rule_id: &str) -> (r: Result<
    (),
    ApiError,
>)
    ensures
        ({
            let before = rules_in(*old(rules));
            if is_removable(before, kind@, rule_id@) {
                r is Ok && rules_in(*final(rules)) == without_rule(before, kind@, rule_id@)
            } else {
                &&& r matches Err(e)
                &&& e@ == not_found("No such push rule"@)
                &&& rules_in(*final(rules)) == before
            }
        }),
{
    if remove_rule(rules, kind, rule_id) {
        Ok(())
    } else {
        Err(ApiError::not_found("No such push rule"))
    }
}

/// A list in a request: absent, read, or the fault in it.
#[derive(Debug)]
pub enum ListParam<T> {
    Absent,
    Read(Vec<T>),
    Fault(String),
}

/// `ListParam` as a value.
pub open spec fn list_view<T>(p: ListParam<T>) -> Option<Result<Seq<T>, Seq<char>>> {
    match p {
        ListParam::Absent => None,
        ListParam::Read(v) => Some(Ok(v@)),
        ListParam::Fault(t) => Some(Err(t@)),
    }
}

/// The fault in a list.
pub open spec fn list_fault<T>(p: Option<Result<Seq<T>, Seq<char>>>) -> Option<Seq<char>> {
    match p {
        Some(Err(t)) => Some(t),
        _ => None,
    }
}

/// The items of a list.
pub open spec fn list_items<T>(p: Option<Result<Seq<T>, Seq<char>>>) -> Seq<T> {
    match p {
        Some(Ok(v)) => v,
        _ => Seq::empty(),
    }
}

/// The actions that a JSON text lists, or what `serde_json` says is wrong with it.
pub uninterp spec fn parsed_actions(json: Seq<char>) -> Result<
    Seq<ruma::push::Action>,
    Seq<char>,
>;

/// The conditions that a JSON text lists, or what `serde_json` says is wrong with
/// it.
pub uninterp spec fn parsed_conditions(json: Seq<char>) -> Result<
    Seq<ruma::push::PushCondition>,
    Seq<char>,
>;

/// `serde_json::from_value` into a list of `ruma::push::Action`, of the value that
/// a text holds. Which texts it reads, as which actions, and the wording of the
/// fault are named and not stated.
#[verifier::external_body]
fn read_actions(json: &str) -> (r: Result<Vec<ruma::push::Action>, String>)
    ensures
        match parsed_actions(json@) {
            Ok(s) => r matches Ok(v) && v@ == s,
            Err(t) => r matches Err(e) && e@ == t,
        },
{
    serde_json::from_str(json).and_then(serde_json::from_value).map_err(|e| e.to_string())
}

/// `serde_json::from_value` into a list of `ruma::push::PushCondition`, of the
/// value that a text holds. Which texts it reads, as which conditions, and the
/// wording of the fault are named and not stated.
#[verifier::external_body]
fn read_conditions(json: &str) -> (r: Result<Vec<ruma::push::PushCondition>, String>)
    ensures
        match parsed_conditions(json@) {
            Ok(s) => r matches Ok(v) && v@ == s,
            Err(t) => r matches Err(e) && e@ == t,
        },
{
    serde_json::from_str(json).and_then(serde_json::from_value).map_err(|e| e.to_string())
}

/// The actions in a request, of the text of its list.
pub open spec fn asked_actions(json: Option<Seq<char>>) -> Option<
    Result<Seq<ruma::push::Action>, Seq<char>>,
> {
    match json {
        Some(t) => Some(parsed_actions(t)),
        None => None,
    }
}

/// The conditions in a request, of the text of its list.
pub open spec fn asked_conditions(json: Option<Seq<char>>) -> Option<
    Result<Seq<ruma::push::PushCondition>, Seq<char>>,
> {
    match json {
        Some(t) => Some(parsed_conditions(t)),
        None => None,
    }
}

fn actions_param(json: Option<&str>) -> (r: ListParam<ruma::push::Action>)
    ensures
        list_view(r) == asked_actions(opt_str(json)),
{
    match json {
        Some(t) => match read_actions(t) {
            Ok(v) => ListParam::Read(v),
            Err(e) => ListParam::Fault(e),
        },
        None => ListParam::Absent,
    }
}

fn conditions_param(json: Option<&str>) -> (r: ListParam<ruma::push::PushCondition>)
    ensures
        list_view(r) == asked_conditions(opt_str(json)),
{
    match json {
        Some(t) => match read_conditions(t) {
            Ok(v) => ListParam::Read(v),
            Err(e) => ListParam::Fault(e),
        },
        None => ListParam::Absent,
    }
}

/// What is wrong with a rule that is put in.
pub open spec fn put_fault(
    kind: Seq<char>,
    id: Seq<char>,
    pattern: Option<Seq<char>>,
    actions_absent: bool,
    actions_fault: Option<Seq<char>>,
    conditions_fault: Option<Seq<char>>,
) -> Option<ApiErrorV> {
    if actions_absent {
        Some(invalid_param("Missing actions"@))
    } else if actions_fault is Some {
        Some(invalid_param("actions: "@ + actions_fault->0))
    } else if kind == "room"@ && !is_room_id(id) {
        Some(invalid_param("room rule ID must be a room ID"@))
    } else if kind == "sender"@ && !is_user_id(id) {
        Some(invalid_param("sender rule ID must be a user ID"@))
    } else if kind == "content"@ && pattern is None {
        Some(invalid_param("Missing pattern"@))
    } else if (kind == "override"@ || kind == "underride"@) && conditions_fault is Some {
        Some(invalid_param("conditions: "@ + conditions_fault->0))
    } else if kind != "room"@ && kind != "sender"@ && kind != "content"@ && kind != "override"@
        && kind != "underride"@ {
        Some(invalid_param("Unknown rule kind"@))
    } else {
        match rule_id_fault(id) {
            Some(t) => Some(invalid_param(t)),
            None => None,
        }
    }
}

/// The rule that a request makes: a content rule has the pattern, an override
/// or underride rule the conditions.
pub open spec fn made_rule(
    kind: Seq<char>,
    id: Seq<char>,
    pattern: Option<Seq<char>>,
    actions: Option<Result<Seq<ruma::push::Action>, Seq<char>>>,
    conditions: Option<Result<Seq<ruma::push::PushCondition>, Seq<char>>>,
) -> RuleV {
    user_rule(
        id,
        list_items(actions),
        if kind == "content"@ {
            pattern
        } else {
            None
        },
        if kind == "override"@ || kind == "underride"@ {
            list_items(conditions)
        } else {
            Seq::empty()
        },
    )
}

fn inserted(r: Result<(), String>) -> (x: Result<(), ApiError>)
    ensures
        match unit_fault(r) {
            Some(t) => x matches Err(e) && e@ == invalid_param(t),
            None => x is Ok,
        },
{
    match r {
        Ok(()) => Ok(()),
        Err(t) => Err(ApiError::invalid_param(t.as_str())),
    }
}

proof fn lemma_kinds_differ()
    ensures
        "room"@ != "sender"@,
        "room"@ != "content"@,
        "room"@ != "override"@,
        "room"@ != "underride"@,
        "sender"@ != "content"@,
        "sender"@ != "override"@,
        "sender"@ != "underride"@,
        "content"@ != "override"@,
        "content"@ != "underride"@,
        "override"@ != "underride"@,
{
    reveal_strlit("room");
    reveal_strlit("sender");
    reveal_strlit("content");
    reveal_strlit("override");
    reveal_strlit("underride");
    assert("room"@.len() == 4 && "sender"@.len() == 6 && "content"@.len() == 7
        && "override"@.len() == 8 && "underride"@.len() == 9);
}

/// What comes of putting a rule: the fault and the rules as they were, or the
/// rules with that rule.
pub open spec fn is_put(
    before: Map<Seq<char>, Seq<RuleV>>,
    kind: Seq<char>,
    rule_id: Seq<char>,
    pattern: Option<Seq<char>>,
    actions: Option<Result<Seq<ruma::push::Action>, Seq<char>>>,
    conditions: Option<Result<Seq<ruma::push::PushCondition>, Seq<char>>>,
    r: Result<(), ApiError>,
    after: Map<Seq<char>, Seq<RuleV>>,
) -> bool {
    match put_fault(
        kind,
        rule_id,
        pattern,
        actions is None,
        list_fault(actions),
        list_fault(conditions),
    ) {
        Some(x) => r matches Err(e) && e@ == x && after == before,
        None => r is Ok && after == with_rule(
            before,
            kind,
            made_rule(kind, rule_id, pattern, actions, conditions),
        ),
    }
}

/// `ruma::push::Ruleset` has an override rule: the field `override_` is not
/// empty.
#[verifier::external_body]
fn has_override_rules(rules: &ruma::push::Ruleset) -> (r: bool)
    ensures
        r == (rules_of(rules_in(*rules), "override"@).len() > 0),
{
    !rules.override_.is_empty()
}

/// Creates or replaces a rule, once the lists in the request are read. An override
/// rule goes behind the first one, so there must be one.
pub fn put_rule(
    rules: &mut ruma::push::Ruleset,
    kind: &str,
    rule_id: &str,
    pattern: Option<&str>,
    actions: ListParam<ruma::push::Action>,
    conditions: ListParam<ruma::push::PushCondition>,
) -> (r: Result<(), ApiError>)
    requires
        kind@ == "override"@ ==> rules_of(rules_in(*old(rules)), "override"@).len() > 0,
    ensures
        is_put(
            rules_in(*old(rules)),
            kind@,
            rule_id@,
            opt_str(pattern),
            list_view(actions),
            list_view(conditions),
            r,
            rules_in(*final(rules)),
        ),
{
    proof {
        lemma_kinds_differ();
    }
    let actions = match actions {
        ListParam::Absent => {
            return Err(ApiError::invalid_param("Missing actions"));
        },
        ListParam::Fault(t) => {
            return Err(ApiError::invalid_param(join_texts("actions: ", t.as_str()).as_str()));
        },
        ListParam::Read(v) => v,
    };
    if same_text(kind, "room") {
        if check_room_id(rule_id).is_err() {
            return Err(ApiError::invalid_param("room rule ID must be a room ID"));
        }
        return inserted(insert_room_rule(rules, rule_id, actions));
    }
    if same_text(kind, "sender") {
        if check_user_id(rule_id).is_err() {
            return Err(ApiError::invalid_param("sender rule ID must be a user ID"));
        }
        return inserted(insert_sender_rule(rules, rule_id, actions));
    }
    if same_text(kind, "content") {
        return match pattern {
            Some(p) => inserted(insert_content_rule(rules, rule_id, p, actions)),
            None => Err(ApiError::invalid_param("Missing pattern")),
        };
    }
    let overriding = same_text(kind, "override");
    if !overriding && !same_text(kind, "underride") {
        return Err(ApiError::invalid_param("Unknown rule kind"));
    }
    let conditions = match conditions {
        ListParam::Absent => Vec::new(),
        ListParam::Fault(t) => {
            return Err(ApiError::invalid_param(join_texts("conditions: ", t.as_str()).as_str()));
        },
        ListParam::Read(v) => v,
    };
    if overriding {
        inserted(insert_override_rule(rules, rule_id, conditions, actions))
    } else {
        inserted(insert_underride_rule(rules, rule_id, conditions, actions))
    }
}

/// Creates or replaces a rule. The actions and conditions are the JSON texts of
/// these members of the request. An override rule goes behind the first one, so
/// there must be one.
pub fn put_pushrule(
    rules: &mut ruma::push::Ruleset,
    kind: &str,
    rule_id: &str,
    pattern: Option<&str>,
    actions: Option<&str>,
    conditions: Option<&str>,
) -> (r: Result<(), ApiError>)
    requires
        kind@ == "override"@ ==> rules_of(rules_in(*old(rules)), "override"@).len() > 0,
    ensures
        is_put(
            rules_in(*old(rules)),
            kind@,
            rule_id@,
            opt_str(pattern),
            asked_actions(opt_str(actions)),
            asked_conditions(opt_str(conditions)),
            r,
            rules_in(*final(rules)),
        ),
{
    let actions = actions_param(actions);
    let conditions = conditions_param(conditions);
    put_rule(rules, kind, rule_id, pattern, actions, conditions)
}

/// [`put_pushrule`] on rules that may have no override rule: `None`, and the
/// rules as they were, where an override rule is put and there is none yet.
pub fn try_put_pushrule(
    rules: &mut ruma::push::Ruleset,
    kind: &str,
    rule_id: &str,
    pattern: Option<&str>,
    actions: Option<&str>,
    conditions: Option<&str>,
) -> (r: Option<Result<(), ApiError>>)
    ensures
        r is None <==> kind@ == "override"@ && rules_of(
            rules_in(*old(rules)),
            "override"@,
        ).len() == 0,
        match r {
            Some(x) => is_put(
                rules_in(*old(rules)),
                kind@,
                rule_id@,
                opt_str(pattern),
                asked_actions(opt_str(actions)),
                asked_conditions(opt_str(conditions)),
                x,
                rules_in(*final(rules)),
            ),
            None => rules_in(*final(rules)) == rules_in(*old(rules)),
        },
{
    if same_text(kind, "override") && !has_override_rules(rules) {
        return None;
    }
    Some(put_pushrule(rules, kind, rule_id, pattern, actions, conditions))
}

/// A change to an attribute of a rule.
#[derive(Debug)]
pub enum AttrChange {
    Enabled(Option<bool>),
    Actions(ListParam<ruma::push::Action>),
    Other,
}

/// `AttrChange` as a value.
pub enum AttrChangeV {
    Enabled(Option<bool>),
    Actions(Option<Result<Seq<ruma::push::Action>, Seq<char>>>),
    Other,
}

pub open spec fn change_view(change: AttrChange) -> AttrChangeV {
    match change {
        AttrChange::Enabled(b) => AttrChangeV::Enabled(b),
        AttrChange::Actions(a) => AttrChangeV::Actions(list_view(a)),
        AttrChange::Other => AttrChangeV::Other,
    }
}

/// What is wrong with a change to an attribute of a rule.
pub open spec fn attr_fault(change: AttrChangeV, there: bool) -> Option<ApiErrorV> {
    match change {
        AttrChangeV::Enabled(None) => Some(invalid_param("Missing enabled"@)),
        AttrChangeV::Actions(None) => Some(invalid_param("Missing actions"@)),
        AttrChangeV::Actions(Some(Err(t))) => Some(invalid_param("actions: "@ + t)),
        AttrChangeV::Other => Some(invalid_param("Unknown rule attribute"@)),
        _ => if there {
            None
        } else {
            Some(not_found("No such push rule"@))
        },
    }
}

/// What comes of a change to an attribute of a rule: the fault and the rules as
/// they were, or the rules with that one changed in its place.
pub open spec fn is_changed(
    before: Map<Seq<char>, Seq<RuleV>>,
    kind: Seq<char>,
    rule_id: Seq<char>,
    change: AttrChangeV,
    r: Result<(), ApiError>,
    after: Map<Seq<char>, Seq<RuleV>>,
) -> bool {
    let rule = rule_at(before, kind, rule_id);
    match attr_fault(change, rule is Some) {
        Some(x) => r matches Err(e) && e@ == x && after == before,
        None => r is Ok && after == with_changed(
            before,
            kind,
            match change {
                AttrChangeV::Enabled(Some(b)) => RuleV { enabled: b, ..rule->0 },
                AttrChangeV::Actions(a) => RuleV { actions: list_items(a), ..rule->0 },
                _ => rule->0,
            },
        ),
    }
}

/// Enables or disables a rule, or gives it other actions, once the request is
/// read.
pub fn change_rule(
    rules: &mut ruma::push::Ruleset,
    kind: &str,
    rule_id: &str,
    change: AttrChange,
) -> (r: Result<(), ApiError>)
    ensures
        is_changed(
            rules_in(*old(rules)),
            kind@,
            rule_id@,
            change_view(change),
            r,
            rules_in(*final(rules)),
        ),
{
    let there = match change {
        AttrChange::Enabled(None) => {
            return Err(ApiError::invalid_param("Missing enabled"));
        },
        AttrChange::Enabled(Some(b)) => set_rule_enabled(rules, kind, rule_id, b),
        AttrChange::Actions(ListParam::Absent) => {
            return Err(ApiError::invalid_param("Missing actions"));
        },
        AttrChange::Actions(ListParam::Fault(t)) => {
            return Err(ApiError::invalid_param(join_texts("actions: ", t.as_str()).as_str()));
        },
        AttrChange::Actions(ListParam::Read(v)) => set_rule_actions(rules, kind, rule_id, v),
        AttrChange::Other => {
            return Err(ApiError::invalid_param("Unknown rule attribute"));
        },
    };
    if there {
        Ok(())
    } else {
        Err(ApiError::not_found("No such push rule"))
    }
}

/// The change that a request asks for.
pub open spec fn asked_change(
    attr: Seq<char>,
    enabled: Option<bool>,
    actions: Option<Seq<char>>,
) -> AttrChangeV {
    if attr == "enabled"@ {
        AttrChangeV::Enabled(enabled)
    } else if attr == "actions"@ {
        AttrChangeV::Actions(asked_actions(actions))
    } else {
        AttrChangeV::Other
    }
}

/// Enables or disables a rule, or gives it other actions. The actions are the JSON
/// text of this member of the request.
pub fn put_pushrule_attr(
    rules: &mut ruma::push::Ruleset,
    kind: &str,
    rule_id: &str,
    attr: &str,
    enabled: Option<bool>,
    actions: Option<&str>,
) -> (r: Result<(), ApiError>)
    ensures
        is_changed(
            rules_in(*old(rules)),
            kind@,
            rule_id@,
            asked_change(attr@, enabled, opt_str(actions)),
            r,
            rules_in(*final(rules)),
        ),
{
    let change = if same_text(attr, "enabled") {
        AttrChange::Enabled(enabled)
    } else if same_text(attr, "actions") {
        AttrChange::Actions(actions_param(actions))
    } else {
        AttrChange::Other
    };
    change_rule(rules, kind, rule_id, change)
}

/// Room-upgrade carry-over: a user's rule for the old room is copied to the new
/// one, and stays. Says whether there was one to copy, and a room ID to copy it
/// to.
pub fn copy_rules_from_predecessor(
    rules: &mut ruma::push::Ruleset,
    predecessor: &str,
    room_id: &str,
) -> (r: bool)
    ensures
        r == (is_room_id(room_id@) && rule_at(
            rules_in(*old(rules)),
            "room"@,
            predecessor@,
        ) is Some),
        rules_in(*final(rules)) == (if r {
            rules_after(
                rules_in(*old(rules)),
                "room"@,
                user_rule(
                    room_id@,
                    rule_at(rules_in(*old(rules)), "room"@, predecessor@)->0.actions,
                    None,
                    Seq::empty(),
                ),
            )
        } else {
            rules_in(*old(rules))
        }),
{
    if check_room_id(room_id).is_err() {
        return false;
    }
    match get_rule(rules, "room", predecessor) {
        Some((_, actions)) => {
            let _ = insert_room_rule(rules, room_id, actions);
            true
        },
        None => false,
    }
}

proof fn lemma_place(list: Seq<RuleV>, id: Seq<char>, i: int)
    requires
        0 <= i,
    ensures
        rule_place(list, id, i) matches Some(k) ==> i <= k < list.len() && list[k].rule_id == id
            && forall|j: int| i <= j < k ==> (#[trigger] list[j]).rule_id != id,
        rule_place(list, id, i) is None ==> forall|j: int|
            i <= j < list.len() ==> (#[trigger] list[j]).rule_id != id,
    decreases list.len() - i,
{
    if i < list.len() && list[i].rule_id != id {
        lemma_place(list, id, i + 1);
    }
}

proof fn lemma_place_is(list: Seq<RuleV>, id: Seq<char>, i: int, k: int)
    requires
        0 <= i <= k < list.len(),
        list[k].rule_id == id,
        forall|j: int| i <= j < k ==> (#[trigger] list[j]).rule_id != id,
    ensures
        rule_place(list, id, i) == Some(k),
    decreases k - i,
{
    if i < k {
        lemma_place_is(list, id, i + 1, k);
    }
}

/// A rule that is put in is there, and a rule with another ID is as it was.
pub proof fn law_put_rules_are_there(
    rules: Map<Seq<char>, Seq<RuleV>>,
    kind: Seq<char>,
    rule: RuleV,
    other: Seq<char>,
)
    requires
        kind == "override"@ ==> rules_of(rules, kind).len() > 0,
        other != rule.rule_id,
    ensures
        rule_at(with_rule(rules, kind, rule), kind, rule.rule_id) matches Some(x) && x.actions
            == rule.actions && x.pattern == rule.pattern && x.conditions == rule.conditions
            && x.default == rule.default,
        rule_at(with_rule(rules, kind, rule), kind, other) == rule_at(rules, kind, other),
{
    let list = rules_of(rules, kind);
    let now = rules_of(with_rule(rules, kind, rule), kind);
    let top: int = if kind == "override"@ {
        1
    } else {
        0
    };
    lemma_place(list, rule.rule_id, 0);
    lemma_place(list, other, 0);
    match rule_place(list, rule.rule_id, 0) {
        Some(i) => {
            lemma_place_is(now, rule.rule_id, 0, i);
            match rule_place(list, other, 0) {
                Some(k) => {
                    lemma_place_is(now, other, 0, k);
                },
                None => {
                    lemma_place(now, other, 0);
                },
            }
        },
        None => {
            assert(now == list.insert(top, rule));
            assert(now[top] == rule);
            assert forall|j: int| 0 <= j < top implies (#[trigger] now[j]).rule_id
                != rule.rule_id by {
                assert(now[j] == list[j]);
            }
            lemma_place_is(now, rule.rule_id, 0, top);
            match rule_place(list, other, 0) {
                Some(k) => {
                    let n = if k < top {
                        k
                    } else {
                        k + 1
                    };
                    assert forall|j: int| 0 <= j < n implies (#[trigger] now[j]).rule_id
                        != other by {
                        if j < top {
                            assert(now[j] == list[j]);
                        } else if j > top {
                            assert(now[j] == list[j - 1]);
                        }
                    }
                    assert(now[n] == list[k]);
                    lemma_place_is(now, other, 0, n);
                },
                None => {
                    lemma_place(now, other, 0);
                    if rule_place(now, other, 0) is Some {
                        let n = rule_place(now, other, 0)->0;
                        if n < top {
                            assert(now[n] == list[n]);
                        } else if n > top {
                            assert(now[n] == list[n - 1]);
                        }
                    }
                },
            }
        },
    }
}

/// What a client sees of a rule that was put in is that rule; where it took the
/// place of another, it is enabled as that was.
pub proof fn law_put_rules_are_shown(
    rules: Map<Seq<char>, Seq<RuleV>>,
    kind: Seq<char>,
    rule: RuleV,
)
    requires
        kind == "override"@ ==> rules_of(rules, kind).len() > 0,
    ensures
        shown_rule(with_rule(rules, kind, rule), kind, rule.rule_id) == answered(
            written_rule(
                kind,
                match rule_at(rules, kind, rule.rule_id) {
                    Some(x) => RuleV { enabled: x.enabled, ..rule },
                    None => rule,
                },
            ),
        ),
{
    let list = rules_of(rules, kind);
    let now = rules_of(with_rule(rules, kind, rule), kind);
    let top: int = if kind == "override"@ {
        1
    } else {
        0
    };
    lemma_place(list, rule.rule_id, 0);
    match rule_place(list, rule.rule_id, 0) {
        Some(i) => {
            lemma_place_is(now, rule.rule_id, 0, i);
        },
        None => {
            assert(now == list.insert(top, rule));
            assert(now[top] == rule);
            assert forall|j: int| 0 <= j < top implies (#[trigger] now[j]).rule_id
                != rule.rule_id by {
                assert(now[j] == list[j]);
            }
            lemma_place_is(now, rule.rule_id, 0, top);
        },
    }
}

/// A rule that was changed is as it was changed to, and a rule with another ID is
/// as it was.
pub proof fn law_changed_rules_are_there(
    rules: Map<Seq<char>, Seq<RuleV>>,
    kind: Seq<char>,
    rule: RuleV,
    other: Seq<char>,
)
    requires
        rule_at(rules, kind, rule.rule_id) is Some,
        other != rule.rule_id,
    ensures
        rule_at(with_changed(rules, kind, rule), kind, rule.rule_id) == Some(rule),
        rule_at(with_changed(rules, kind, rule), kind, other) == rule_at(rules, kind, other),
{
    let list = rules_of(rules, kind);
    let now = rules_of(with_changed(rules, kind, rule), kind);
    lemma_place(list, rule.rule_id, 0);
    lemma_place(list, other, 0);
    lemma_place_is(now, rule.rule_id, 0, rule_place(list, rule.rule_id, 0)->0);
    match rule_place(list, other, 0) {
        Some(k) => {
            lemma_place_is(now, other, 0, k);
        },
        None => {
            lemma_place(now, other, 0);
        },
    }
}

/// The server's rules cannot be removed, nor replaced by one put in: the IDs
/// that begin with a dot are theirs.
pub proof fn law_server_rules_stay(
    rules: Map<Seq<char>, Seq<RuleV>>,
    kind: Seq<char>,
    id: Seq<char>,
    rule: RuleV,
)
    requires
        rule_at(rules, kind, id) matches Some(x) && x.default,
        id.len() > 0 && id[0] == '.',
        kind == "override"@ ==> rules_of(rules, kind).len() > 0,
    ensures
        !is_removable(rules, kind, id),
        rule_at(rules_after(rules, kind, rule), kind, id) == rule_at(rules, kind, id),
{
    if rule_id_fault(rule.rule_id) is None {
        law_put_rules_are_there(rules, kind, rule, id);
    }
}

// -- pushers ------------------------------------------------------------------

/// What is done with a pusher.
#[derive(Debug)]
pub struct PusherPlan {
    pub app_id: String,
    pub pushkey: String,
    /// The gateway to be vetted.
    pub gateway: Option<String>,
    /// The pusher as it is stored; none where it is deleted.
    pub pusher: Option<Json>,
}

/// Is a pusher to be deleted? Its kind is `null` then, or missing.
pub open spec fn deletes(body: Map<Seq<char>, JsonV>) -> bool {
    entry(body, "kind"@) is None || entry(body, "kind"@) == Some(JsonV::Null)
}

/// The gateway that a pusher names, where it must name one.
pub open spec fn named_gateway(body: Map<Seq<char>, JsonV>) -> Option<Option<Seq<char>>> {
    if entry(body, "kind"@) == Some(JsonV::Str("http"@)) {
        Some(as_text(field2(JsonV::Object(body), "data"@, "url"@)))
    } else {
        None
    }
}

/// What is wrong with the gateway of a pusher, given the scheme of its URL.
pub open spec fn gateway_fault(url: Seq<char>, scheme: Option<Seq<char>>) -> Option<ApiErrorV> {
    if !ends_with(url, "/_matrix/push/v1/notify"@) {
        Some(invalid_param("data.url must end with /_matrix/push/v1/notify"@))
    } else {
        match scheme {
            None => Some(invalid_param("data.url is not a valid URL"@)),
            Some(s) => if is_web(s) {
                None
            } else {
                Some(invalid_param("data.url must be http(s)"@))
            },
        }
    }
}

/// Checks the gateway of a pusher once the scheme of its URL is known.
pub fn check_gateway(url: &str, scheme: Option<&str>) -> (r: Result<(), ApiError>)
    ensures
        match gateway_fault(
            url@,
            match scheme {
                Some(s) => Some(s@),
                None => None,
            },
        ) {
            Some(x) => r matches Err(e) && e@ == x,
            None => r is Ok,
        },
{
    if !has_suffix(url, "/_matrix/push/v1/notify") {
        return Err(ApiError::invalid_param("data.url must end with /_matrix/push/v1/notify"));
    }
    match scheme {
        None => Err(ApiError::invalid_param("data.url is not a valid URL")),
        Some(s) => if same_text(s, "http") || same_text(s, "https") {
            Ok(())
        } else {
            Err(ApiError::invalid_param("data.url must be http(s)"))
        },
    }
}

/// What is wrong with a request about a pusher.
pub open spec fn pusher_fault(body: Map<Seq<char>, JsonV>) -> Option<ApiErrorV> {
    if as_text(entry(body, "app_id"@)) is None {
        Some(invalid_param("Missing app_id"@))
    } else if as_text(entry(body, "pushkey"@)) is None {
        Some(invalid_param("Missing pushkey"@))
    } else {
        match named_gateway(body) {
            Some(None) => Some(invalid_param("http pushers require data.url"@)),
            Some(Some(url)) => gateway_fault(url, parsed_scheme(url)),
            None => None,
        }
    }
}

fn text_at(m: &Vec<(String, Json)>, key: &str) -> (r: Option<String>)
    ensures
        match as_text(entry(fields_view(m@), key@)) {
            Some(s) => r matches Some(t) && t@ == s,
            None => r is None,
        },
{
    match get(m, key) {
        Some(j) => match j.as_str() {
            Some(s) => Some(s.to_owned()),
            None => None,
        },
        None => None,
    }
}

/// Creates, replaces or deletes a pusher: what is done, or what is wrong. HTTP
/// pushers must name a gateway, whose path is fixed.
pub fn set_pushers(body: &Vec<(String, Json)>) -> (r: Result<PusherPlan, ApiError>)
    ensures
        ({
            let m = fields_view(body@);
            match pusher_fault(m) {
                Some(x) => r matches Err(e) && e@ == x,
                None => {
                    &&& r matches Ok(p)
                    &&& Some(p.app_id@) == as_text(entry(m, "app_id"@))
                    &&& Some(p.pushkey@) == as_text(entry(m, "pushkey"@))
                    &&& match named_gateway(m) {
                        Some(g) => p.gateway matches Some(s) && Some(s@) == g,
                        None => p.gateway is None,
                    }
                    &&& if deletes(m) {
                        p.pusher is None
                    } else {
                        p.pusher matches Some(j) && j@ == JsonV::Object(m.remove("append"@))
                    }
                },
            }
        }),
{
    let app_id = match text_at(body, "app_id") {
        Some(s) => s,
        None => {
            return Err(ApiError::invalid_param("Missing app_id"));
        },
    };
    let pushkey = match text_at(body, "pushkey") {
        Some(s) => s,
        None => {
            return Err(ApiError::invalid_param("Missing pushkey"));
        },
    };
    let delete = match get(body, "kind") {
        None => true,
        Some(Json::Null) => true,
        Some(_) => false,
    };
    let http = match text_at(body, "kind") {
        Some(k) => same_text(k.as_str(), "http"),
        None => false,
    };
    let mut gateway: Option<String> = None;
    if http {
        let url = match get(body, "data") {
            Some(d) => match d.get_str("url") {
                Some(s) => s.to_owned(),
                None => {
                    return Err(ApiError::invalid_param("http pushers require data.url"));
                },
            },
            None => {
                return Err(ApiError::invalid_param("http pushers require data.url"));
            },
        };
        let scheme = url_scheme(url.as_str());
        let checked = match &scheme {
            Some(s) => check_gateway(url.as_str(), Some(s.as_str())),
            None => check_gateway(url.as_str(), None),
        };
        match checked {
            Ok(()) => {},
            Err(e) => {
                return Err(e);
            },
        }
        gateway = Some(url);
    }
    let pusher = if delete {
        None
    } else {
        Some(Json::Object(remove(copy_fields(body), "append")))
    };
    Ok(PusherPlan { app_id, pushkey, gateway, pusher })
}

// -- what a change of rules comes to --------------------------------------------

/// A rule is found under its kind and ID: the first of its kind that has the
/// ID.
pub proof fn law_rules_are_found_under_their_id(
    rules: Map<Seq<char>, Seq<RuleV>>,
    kind: Seq<char>,
    list: Seq<RuleV>,
    k: int,
)
    requires
        rules.dom().contains(kind),
        rules[kind] == list,
        0 <= k < list.len(),
        forall|j: int| 0 <= j < k ==> (#[trigger] list[j]).rule_id != list[k].rule_id,
    ensures
        rule_at(rules, kind, list[k].rule_id) == Some(list[k]),
{
    lemma_place_is(list, list[k].rule_id, 0, k);
}

/// What is found is of that kind and has that ID.
pub proof fn law_found_rules_have_the_id(
    rules: Map<Seq<char>, Seq<RuleV>>,
    kind: Seq<char>,
    id: Seq<char>,
)
    ensures
        rule_at(rules, kind, id) matches Some(x) ==> x.rule_id == id && rules.dom().contains(kind)
            && rules[kind].contains(x),
        !rules.dom().contains(kind) ==> rule_at(rules, kind, id) is None,
{
    lemma_place(rules_of(rules, kind), id, 0);
}

/// A rule is put exactly where its actions can be read, its kind is one, its ID
/// is fit for it, and it says what its kind needs. A rule for a room is named
/// for a room and one for a sender for a user; no ID begins with a dot or holds
/// a slash.
pub proof fn law_sound_rules_are_put(
    kind: Seq<char>,
    id: Seq<char>,
    pattern: Option<Seq<char>>,
    actions_absent: bool,
    actions_fault: Option<Seq<char>>,
    conditions_fault: Option<Seq<char>>,
)
    ensures
        put_fault(kind, id, pattern, actions_absent, actions_fault, conditions_fault) is None <==> {
            &&& !actions_absent
            &&& actions_fault is None
            &&& {
                ||| kind == "room"@ && is_room_id(id)
                ||| kind == "sender"@ && is_user_id(id)
                ||| kind == "content"@ && pattern is Some
                ||| (kind == "override"@ || kind == "underride"@) && conditions_fault is None
            }
            &&& !(id.len() > 0 && id[0] == '.')
            &&& !id.contains('/')
            &&& !id.contains('\\')
        },
        put_fault(kind, id, pattern, actions_absent, actions_fault, conditions_fault) matches Some(
            e,
        ) ==> e.status == 400,
{
    lemma_kinds_differ();
}

/// A rule that is put is the user's own, is switched on, does what was asked,
/// and asks what was asked.
pub proof fn law_put_rules_say_what_was_asked(
    kind: Seq<char>,
    id: Seq<char>,
    pattern: Option<Seq<char>>,
    actions: Seq<ruma::push::Action>,
    conditions: Seq<ruma::push::PushCondition>,
)
    ensures
        ({
            let x = made_rule(kind, id, pattern, Some(Ok(actions)), Some(Ok(conditions)));
            &&& x.rule_id == id
            &&& !x.default
            &&& x.enabled
            &&& x.actions == actions
            &&& kind == "content"@ ==> x.pattern == pattern
            &&& kind == "override"@ || kind == "underride"@ ==> x.conditions == conditions
            &&& kind == "room"@ || kind == "sender"@ ==> x.pattern is None
                && x.conditions.len() == 0
        }),
{
    lemma_kinds_differ();
}

/// Putting a rule leaves every other kind as it is, and a rule that is put
/// again stays on or off. A new rule comes first among its kind; among the
/// overrides it comes right behind the master rule.
pub proof fn law_new_rules_come_first(
    rules: Map<Seq<char>, Seq<RuleV>>,
    kind: Seq<char>,
    rule: RuleV,
    other: Seq<char>,
)
    requires
        kind == "override"@ ==> rules_of(rules, kind).len() > 0,
    ensures
        other != kind ==> rules_of(with_rule(rules, kind, rule), other) == rules_of(rules, other),
        rule_at(rules, kind, rule.rule_id) matches Some(x) ==> rule_at(
            with_rule(rules, kind, rule),
            kind,
            rule.rule_id,
        ) == Some(RuleV { enabled: x.enabled, ..rule }) && rules_of(
            with_rule(rules, kind, rule),
            kind,
        ).len() == rules_of(rules, kind).len(),
        rule_at(rules, kind, rule.rule_id) is None ==> {
            let list = rules_of(rules, kind);
            let now = rules_of(with_rule(rules, kind, rule), kind);
            if kind == "override"@ {
                now[0] == list[0] && now[1] == rule && now.skip(2) =~= list.skip(1)
            } else {
                now[0] == rule && now.skip(1) =~= list
            }
        },
{
    let list = rules_of(rules, kind);
    let now = rules_of(with_rule(rules, kind, rule), kind);
    lemma_place(list, rule.rule_id, 0);
    match rule_place(list, rule.rule_id, 0) {
        Some(i) => {
            lemma_place_is(now, rule.rule_id, 0, i);
        },
        None => {},
    }
}

/// Only a user's own rule can be removed; it is gone then, and every other rule
/// is as it was.
pub proof fn law_removed_rules_are_gone(
    rules: Map<Seq<char>, Seq<RuleV>>,
    kind: Seq<char>,
    id: Seq<char>,
    other: Seq<char>,
    i: int,
)
    ensures
        is_removable(rules, kind, id) <==> rule_at(rules, kind, id) is Some && !rule_at(
            rules,
            kind,
            id,
        )->0.default,
        other != kind ==> rules_of(without_rule(rules, kind, id), other) == rules_of(rules, other),
        rule_at(rules, kind, id) is Some ==> rules_of(without_rule(rules, kind, id), kind).len()
            == rules_of(rules, kind).len() - 1,
        0 <= i < rules_of(rules, kind).len() && rules_of(rules, kind)[i].rule_id != id ==> rules_of(
            without_rule(rules, kind, id),
            kind,
        ).contains(rules_of(rules, kind)[i]),
        (forall|a: int, b: int|
            #![trigger rules_of(rules, kind)[a], rules_of(rules, kind)[b]]
            0 <= a < b < rules_of(rules, kind).len() ==> rules_of(rules, kind)[a].rule_id
                != rules_of(rules, kind)[b].rule_id) ==> rule_at(
            without_rule(rules, kind, id),
            kind,
            id,
        ) is None,
{
    let list = rules_of(rules, kind);
    let now = rules_of(without_rule(rules, kind, id), kind);
    lemma_place(list, id, 0);
    lemma_place(now, id, 0);
    match rule_place(list, id, 0) {
        Some(k) => {
            assert(now == list.remove(k));
            if 0 <= i < list.len() && list[i].rule_id != id {
                if i < k {
                    assert(now[i] == list[i]);
                } else {
                    assert(now[i - 1] == list[i]);
                }
            }
            if forall|a: int, b: int|
                #![trigger list[a], list[b]]
                0 <= a < b < list.len() ==> list[a].rule_id != list[b].rule_id {
                assert forall|j: int| 0 <= j < now.len() implies (#[trigger] now[j]).rule_id
                    != id by {
                    if j < k {
                        assert(now[j] == list[j]);
                    } else {
                        assert(now[j] == list[j + 1]);
                        assert(list[k].rule_id != list[j + 1].rule_id);
                    }
                }
            }
        },
        None => {
            if 0 <= i < list.len() {
                assert(now[i] == list[i]);
            }
        },
    }
}

/// A change of a rule is refused where it says nothing, says what cannot be
/// read, is none that can be made, or is of a rule that is not there; any other
/// is made.
pub proof fn law_changes_are_made(there: bool, b: bool, a: Seq<ruma::push::Action>, t: Seq<char>)
    ensures
        attr_fault(AttrChangeV::Enabled(Some(b)), true) is None,
        attr_fault(AttrChangeV::Actions(Some(Ok(a))), true) is None,
        attr_fault(AttrChangeV::Enabled(Some(b)), false) matches Some(e) && e.status == 404,
        attr_fault(AttrChangeV::Actions(Some(Ok(a))), false) matches Some(e) && e.status == 404,
        attr_fault(AttrChangeV::Enabled(None), there) matches Some(e) && e.status == 400,
        attr_fault(AttrChangeV::Actions(None), there) matches Some(e) && e.status == 400,
        attr_fault(AttrChangeV::Actions(Some(Err(t))), there) matches Some(e) && e.status == 400,
        attr_fault(AttrChangeV::Other, there) matches Some(e) && e.status == 400,
{
}

/// Switching a rule on or off changes that and nothing else of it; so does a
/// change of what it does.
pub proof fn law_changes_change_one_thing(
    before: Map<Seq<char>, Seq<RuleV>>,
    kind: Seq<char>,
    id: Seq<char>,
    on: bool,
    actions: Seq<ruma::push::Action>,
    r: Result<(), ApiError>,
    after: Map<Seq<char>, Seq<RuleV>>,
)
    requires
        rule_at(before, kind, id) is Some,
    ensures
        is_changed(before, kind, id, AttrChangeV::Enabled(Some(on)), r, after)
            ==> r is Ok && rule_at(
            after,
            kind,
            id,
        ) == Some(RuleV { enabled: on, ..rule_at(before, kind, id)->0 }),
        is_changed(before, kind, id, AttrChangeV::Actions(Some(Ok(actions))), r, after) ==> r is Ok
            && rule_at(after, kind, id) == Some(
            RuleV { actions, ..rule_at(before, kind, id)->0 },
        ),
{
    let x = rule_at(before, kind, id)->0;
    lemma_place(rules_of(before, kind), id, 0);
    let other = id.push('x');
    assert(other.len() != id.len());
    law_changed_rules_are_there(before, kind, RuleV { enabled: on, ..x }, other);
    law_changed_rules_are_there(before, kind, RuleV { actions, ..x }, other);
}

/// An attribute is shown as it stands, of a rule that is there; no other
/// attribute is.
pub proof fn law_attributes_are_shown(
    rules: Map<Seq<char>, Seq<RuleV>>,
    kind: Seq<char>,
    id: Seq<char>,
    attr: Seq<char>,
)
    ensures
        rule_at(rules, kind, id) is None ==> (shown_attr(rules, kind, id, attr) matches Err(e)
            && e.status == 404) && (shown_rule(rules, kind, id) matches Err(e) && e.status == 404),
        rule_at(rules, kind, id) matches Some(x) ==> {
            &&& shown_attr(rules, kind, id, "enabled"@) == Ok::<Seq<char>, ApiErrorV>(
                object_text(
                    "enabled"@,
                    if x.enabled {
                        "true"@
                    } else {
                        "false"@
                    },
                ),
            )
            &&& written_actions(x.actions) matches Ok(t) ==> shown_attr(
                rules,
                kind,
                id,
                "actions"@,
            ) == Ok::<Seq<char>, ApiErrorV>(object_text("actions"@, t))
            &&& attr != "enabled"@ && attr != "actions"@
                ==> (shown_attr(rules, kind, id, attr) matches Err(
                e,
            ) && e.status == 400)
            &&& written_rule(kind, x) matches Ok(t) ==> shown_rule(rules, kind, id) == Ok::<
                Seq<char>,
                ApiErrorV,
            >(t)
        },
{
    reveal_strlit("enabled");
    reveal_strlit("actions");
    assert("enabled"@[0] == 'e' && "actions"@[0] == 'a');
}

/// A user's rules are those that are stored, where they can be read, and else
/// the server's.
pub proof fn law_stored_rules_are_the_users(content: Seq<char>, user: Seq<char>)
    ensures
        loaded_rules(None, user) == default_rules(user),
        json_member(content, "global"@) is None ==> loaded_rules(Some(content), user)
            == default_rules(user),
        json_member(content, "global"@) matches Some(g) ==> (match parsed_rules(g) {
            Some(m) => loaded_rules(Some(content), user) == m,
            None => loaded_rules(Some(content), user) == default_rules(user),
        }),
{
}

/// A rule of the server's is added at the end of its kind, once; nothing else
/// changes.
pub proof fn law_server_rules_are_added_once(
    rules: Map<Seq<char>, Seq<RuleV>>,
    kind: Seq<char>,
    rule: RuleV,
    other: Seq<char>,
)
    ensures
        other != kind ==> rules_of(with_appended(rules, kind, rule), other) == rules_of(
            rules,
            other,
        ),
        rule_at(rules, kind, rule.rule_id) is Some ==> with_appended(rules, kind, rule) == rules,
        rule_at(rules, kind, rule.rule_id) is None ==> rules_of(
            with_appended(rules, kind, rule),
            kind,
        ) == rules_of(rules, kind) + seq![rule],
{
    if rule_at(rules, kind, rule.rule_id) is None {
        assert(rules_of(with_appended(rules, kind, rule), kind) =~= rules_of(rules, kind) + seq![
            rule,
        ]);
    }
}

/// A pusher is taken exactly where it says its app and its key, and where it is
/// an HTTP pusher, a gateway that ends in the push path and is a web address.
pub proof fn law_sound_pushers_are_taken(body: Map<Seq<char>, JsonV>)
    ensures
        ({
            let j = JsonV::Object(body);
            let http = field(j, "kind"@) == Some(JsonV::Str("http"@));
            pusher_fault(body) is None <==> {
                &&& field(j, "app_id"@) is Some && field(j, "app_id"@)->0 is Str
                &&& field(j, "pushkey"@) is Some && field(j, "pushkey"@)->0 is Str
                &&& http ==> (field2(j, "data"@, "url"@) matches Some(JsonV::Str(url)) && ends_with(
                    url,
                    "/_matrix/push/v1/notify"@,
                ) && parsed_scheme(url) is Some && is_web(parsed_scheme(url)->0))
            }
        }),
        pusher_fault(body) matches Some(e) ==> e.status == 400,
        deletes(body) <==> field(JsonV::Object(body), "kind"@) is None || field(
            JsonV::Object(body),
            "kind"@,
        ) == Some(JsonV::Null),
{
}

/// A change is of what it names: whether the rule is on, or what it does.
pub proof fn law_changes_are_of_what_they_name(
    attr: Seq<char>,
    enabled: Option<bool>,
    actions: Option<Seq<char>>,
)
    ensures
        asked_change("enabled"@, enabled, actions) == AttrChangeV::Enabled(enabled),
        asked_change("actions"@, enabled, None) == AttrChangeV::Actions(None),
        actions matches Some(t) ==> asked_change("actions"@, enabled, actions)
            == AttrChangeV::Actions(Some(parsed_actions(t))),
        attr != "enabled"@ && attr != "actions"@ ==> asked_change(attr, enabled, actions) is Other,
{
    reveal_strlit("enabled");
    reveal_strlit("actions");
    assert("enabled"@[0] == 'e' && "actions"@[0] == 'a');
}

/// A put of a sound rule puts it: it is there then, does what was asked, and is
/// the user's own. A put that is refused changes nothing.
pub proof fn law_puts_put_the_rule(
    before: Map<Seq<char>, Seq<RuleV>>,
    kind: Seq<char>,
    id: Seq<char>,
    pattern: Option<Seq<char>>,
    actions: Seq<ruma::push::Action>,
    conditions: Seq<ruma::push::PushCondition>,
    r: Result<(), ApiError>,
    after: Map<Seq<char>, Seq<RuleV>>,
)
    requires
        is_put(before, kind, id, pattern, Some(Ok(actions)), Some(Ok(conditions)), r, after),
        kind == "override"@ ==> rules_of(before, kind).len() > 0,
    ensures
        r is Ok <==> {
            &&& {
                ||| kind == "room"@ && is_room_id(id)
                ||| kind == "sender"@ && is_user_id(id)
                ||| kind == "content"@ && pattern is Some
                ||| kind == "override"@
                ||| kind == "underride"@
            }
            &&& !(id.len() > 0 && id[0] == '.')
            &&& !id.contains('/')
            &&& !id.contains('\\')
        },
        r is Ok ==> (rule_at(after, kind, id) matches Some(x) && x.actions == actions && !x.default
            && (kind == "content"@ ==> x.pattern == pattern) && (kind == "override"@ || kind
            == "underride"@ ==> x.conditions == conditions)),
        r is Err ==> after == before,
{
    lemma_kinds_differ();
    let acts: Option<Result<Seq<ruma::push::Action>, Seq<char>>> = Some(Ok(actions));
    let conds: Option<Result<Seq<ruma::push::PushCondition>, Seq<char>>> = Some(Ok(conditions));
    law_sound_rules_are_put(kind, id, pattern, false, list_fault(acts), list_fault(conds));
    if r is Ok {
        let other = id.push('x');
        assert(other.len() != id.len());
        law_put_rules_are_there(
            before,
            kind,
            made_rule(kind, id, pattern, acts, conds),
            other,
        );
    }
}

/// An object with one field is written with its name in quotes, a colon and the
/// value, in braces.
pub proof fn law_objects_are_written_in_braces(key: Seq<char>, value: Seq<char>)
    ensures
        object_text(key, value) == seq!['{', '"'] + key + seq!['"', ':'] + value + seq!['}'],
{
    reveal_strlit("{\"");
    reveal_strlit("\":");
    reveal_strlit("}");
    assert("{\""@ =~= seq!['{', '"']);
    assert("\":"@ =~= seq!['"', ':']);
    assert("}"@ =~= seq!['}']);
}

} // verus!
