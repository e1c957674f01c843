//! `createRoom` and room upgrades.
use crate::error::{api_error, bad_json, forbidden, invalid_param, string_array, strings_json, ApiError, ApiErrorV};
use crate::ids::{check_room_alias, check_room_id, check_user_id, is_room_alias, is_room_id, is_user_id, room_alias_fault,
    room_id_fault, server_in, server_part};
use crate::json::{
    array_of, as_int64, copy_fields, field, field2, fields_view, get, items_view, lemma_items,
    no_fields, object_of, one_field, put_str, read_strings_in, remove, strings_in, text_json, Json,
    JsonV,
};
use crate::merge::{merge_json, merged};
use crate::text::{join_texts, list_has, opt_text, same_text, texts};
use vstd::prelude::*;
use vstd::string::StringExecFns;

verus! {

// -- createRoom ---------------------------------------------------------------

/// Which events a room starts with.
#[derive(Clone, Copy, Debug, PartialEq, Eq, Structural)]
pub enum RoomPreset {
    PublicChat,
    PrivateChat,
    TrustedPrivateChat,
    /// A preset this server does not know.
    Custom,
}

/// The room version that a request asks for, or the server's default. A
/// version with privileged creators gives its creators unlimited power.
#[derive(Clone, Copy, Debug, PartialEq, Eq, Structural)]
pub enum VersionChoice {
    Supported { privileged_creators: bool },
    Unsupported,
}

/// A `createRoom` request. Raw JSON in it comes parsed, or with the parser's
/// complaint.
#[derive(Debug)]
pub struct CreateRoomRequest {
    pub version: VersionChoice,
    pub room_alias_name: Option<String>,
    pub public: bool,
    pub preset: Option<RoomPreset>,
    pub creation_content: Option<Result<Vec<(String, Json)>, String>>,
    pub power_level_content_override: Option<Result<Json, String>>,
    pub initial_state: Vec<Result<Json, String>>,
    pub name: Option<String>,
    pub topic: Option<String>,
    pub invite: Vec<String>,
    pub is_direct: bool,
}

/// One thing to do for a new room, in order. The first that fails ends the
/// request; invites are best-effort.
#[derive(Debug)]
pub enum CreateStep {
    /// Send `m.room.create` with these fields as its content.
    CreateRoom { fields: Vec<(String, Json)> },
    /// Point the alias at the new room.
    ReserveAlias { alias: String },
    /// The creator joins, carrying their profile.
    JoinCreator,
    SendState { event_type: String, state_key: String, content: Json },
    Invite { user_id: String, remote: bool, is_direct: bool },
    /// List the room in the public directory.
    ListPublicly,
    /// Tombstone the room that is replaced, pointing at the new one.
    Tombstone,
    /// Carry push rules over from the room that this one replaces.
    CopyPushRules,
    /// End the request here.
    Fail(ApiError),
}

/// `CreateStep` as a value.
pub enum CreateStepV {
    CreateRoom { fields: Map<Seq<char>, JsonV> },
    ReserveAlias { alias: Seq<char> },
    JoinCreator,
    SendState { event_type: Seq<char>, state_key: Seq<char>, content: JsonV },
    Invite { user_id: Seq<char>, remote: bool, is_direct: bool },
    ListPublicly,
    Tombstone,
    CopyPushRules,
    Fail(ApiErrorV),
}

impl View for CreateStep {
    type V = CreateStepV;

    open spec fn view(&self) -> CreateStepV {
        match self {
            CreateStep::CreateRoom { fields } => CreateStepV::CreateRoom {
                fields: fields_view(fields@),
            },
            CreateStep::ReserveAlias { alias } => CreateStepV::ReserveAlias { alias: alias@ },
            CreateStep::JoinCreator => CreateStepV::JoinCreator,
            CreateStep::SendState { event_type, state_key, content } => CreateStepV::SendState {
                event_type: event_type@,
                state_key: state_key@,
                content: content@,
            },
            CreateStep::Invite { user_id, remote, is_direct } => CreateStepV::Invite {
                user_id: user_id@,
                remote: *remote,
                is_direct: *is_direct,
            },
            CreateStep::ListPublicly => CreateStepV::ListPublicly,
            CreateStep::Tombstone => CreateStepV::Tombstone,
            CreateStep::CopyPushRules => CreateStepV::CopyPushRules,
            CreateStep::Fail(e) => CreateStepV::Fail(e@),
        }
    }
}

pub open spec fn step_views(s: Seq<CreateStep>) -> Seq<CreateStepV> {
    s.map_values(|x: CreateStep| x@)
}

/// `#local:server`.
pub open spec fn alias_text(local: Seq<char>, server: Seq<char>) -> Seq<char> {
    seq!['#'] + local.push(':') + server
}

pub open spec fn unsupported_version() -> ApiErrorV {
    api_error(
        400,
        "M_UNSUPPORTED_ROOM_VERSION"@,
        "This server does not support that room version"@,
    )
}

pub open spec fn is_privileged(v: VersionChoice) -> bool {
    v matches VersionChoice::Supported { privileged_creators } && privileged_creators
}

/// The preset of a request: the one it names, else the one that its visibility
/// suggests.
pub open spec fn preset_of(req: CreateRoomRequest) -> RoomPreset {
    match req.preset {
        Some(p) => p,
        None => if req.public {
            RoomPreset::PublicChat
        } else {
            RoomPreset::PrivateChat
        },
    }
}

/// An array of user IDs.
pub open spec fn is_user_id_array(j: JsonV) -> bool {
    j matches JsonV::Array(items) && forall|i: int|
        0 <= i < items.len() ==> ((#[trigger] items[i]) matches JsonV::Str(s) && is_user_id(s))
}

/// The invited users that are not among the names already listed.
pub open spec fn new_names(have: Seq<Seq<char>>, invite: Seq<Seq<char>>) -> Seq<JsonV>
    decreases invite.len(),
{
    if invite.len() == 0 {
        Seq::empty()
    } else {
        let init = new_names(have, invite.drop_last());
        if have.contains(invite.last()) {
            init
        } else {
            init.push(JsonV::Str(invite.last()))
        }
    }
}

/// The creation content with the invited users among the creators. The
/// creators that the client listed stay, in front.
pub open spec fn with_invited_creators(
    content: Map<Seq<char>, JsonV>,
    invite: Seq<Seq<char>>,
) -> Map<Seq<char>, JsonV> {
    let listed = match field(JsonV::Object(content), "additional_creators"@) {
        Some(JsonV::Array(items)) => items,
        _ => Seq::empty(),
    };
    let list = listed + new_names(crate::json::strings_among(listed), invite);
    if list.len() > 0 {
        content.insert("additional_creators"@, JsonV::Array(list))
    } else {
        content
    }
}

/// The content of the create event. In a room with privileged creators, the
/// client's list of creators must be an array of user IDs, and a trusted
/// private chat makes the invited users creators too.
pub open spec fn creation_content(req: CreateRoomRequest) -> Result<Map<Seq<char>, JsonV>, ApiErrorV> {
    match req.creation_content {
        Some(Err(t)) => Err(bad_json("creation_content: "@ + t@)),
        _ => {
            let content = match req.creation_content {
                Some(Ok(m)) => fields_view(m@),
                _ => no_fields(),
            };
            let listed = field(JsonV::Object(content), "additional_creators"@);
            if !is_privileged(req.version) {
                Ok(content)
            } else if listed matches Some(v) && !is_user_id_array(v) {
                Err(
                    bad_json("creation_content.additional_creators must be an array of user IDs"@),
                )
            } else if preset_of(req) == RoomPreset::TrustedPrivateChat {
                Ok(with_invited_creators(content, texts(req.invite@)))
            } else {
                Ok(content)
            }
        },
    }
}

/// The creators that a create event lists besides its sender.
pub open spec fn additional_creators(content: Map<Seq<char>, JsonV>) -> Seq<Seq<char>> {
    strings_in(field(JsonV::Object(content), "additional_creators"@))
}

/// `users` with each name at level 100.
pub open spec fn all_at_100(users: Map<Seq<char>, JsonV>, names: Seq<Seq<char>>) -> Map<
    Seq<char>,
    JsonV,
>
    decreases names.len(),
{
    if names.len() == 0 {
        users
    } else {
        all_at_100(users, names.drop_last()).insert(names.last(), JsonV::Int(100))
    }
}

/// The users with a level of their own in a new room: its creator, unless
/// creators are privileged, and the invited users of a trusted private chat.
pub open spec fn initial_users(req: CreateRoomRequest, creator: Seq<char>) -> Map<Seq<char>, JsonV> {
    let users = if is_privileged(req.version) {
        no_fields()
    } else {
        no_fields().insert(creator, JsonV::Int(100))
    };
    if preset_of(req) == RoomPreset::TrustedPrivateChat {
        all_at_100(users, texts(req.invite@))
    } else {
        users
    }
}

/// The level that an invite takes: none in private chats, else a moderator's.
pub open spec fn invite_level(preset: RoomPreset) -> int {
    if preset == RoomPreset::PrivateChat || preset == RoomPreset::TrustedPrivateChat {
        0
    } else {
        50
    }
}

/// The power levels that a room starts with. Only creators may replace a room
/// whose creators are privileged.
pub open spec fn default_levels(req: CreateRoomRequest, creator: Seq<char>) -> JsonV {
    let events = if is_privileged(req.version) {
        one_field("m.room.tombstone"@, JsonV::Int(150))
    } else {
        JsonV::Object(no_fields())
    };
    JsonV::Object(
        no_fields().insert("ban"@, JsonV::Int(50)).insert("events"@, events).insert(
            "events_default"@,
            JsonV::Int(0),
        ).insert("invite"@, JsonV::Int(invite_level(preset_of(req)))).insert(
            "kick"@,
            JsonV::Int(50),
        ).insert("notifications"@, one_field("room"@, JsonV::Int(50))).insert(
            "redact"@,
            JsonV::Int(50),
        ).insert("state_default"@, JsonV::Int(50)).insert(
            "users"@,
            JsonV::Object(initial_users(req, creator)),
        ).insert("users_default"@, JsonV::Int(0)),
    )
}

/// Does an override give a creator a level?
pub open spec fn lists_creator(overrides: JsonV, creators: Seq<Seq<char>>) -> bool {
    match field(overrides, "users"@) {
        Some(JsonV::Object(users)) => exists|i: int|
            0 <= i < creators.len() && users.dom().contains(#[trigger] creators[i]),
        _ => false,
    }
}

/// The fields without those that have one of the names.
pub open spec fn without(m: Map<Seq<char>, JsonV>, names: Seq<Seq<char>>) -> Map<Seq<char>, JsonV>
    decreases names.len(),
{
    if names.len() == 0 {
        m
    } else {
        without(m, names.drop_last()).remove(names.last())
    }
}

/// Power levels that give no creator a level.
pub open spec fn without_creators(levels: JsonV, creators: Seq<Seq<char>>) -> JsonV {
    match levels {
        JsonV::Object(m) => match field(levels, "users"@) {
            Some(JsonV::Object(users)) => JsonV::Object(
                m.insert("users"@, JsonV::Object(without(users, creators))),
            ),
            _ => levels,
        },
        _ => levels,
    }
}

/// The content of the power-level event.
pub open spec fn power_levels(
    req: CreateRoomRequest,
    creator: Seq<char>,
    more_creators: Seq<Seq<char>>,
) -> Result<JsonV, ApiErrorV> {
    let creators = seq![creator] + more_creators;
    let base = default_levels(req, creator);
    match req.power_level_content_override {
        Some(Err(t)) => Err(bad_json("power_level_content_override: "@ + t@)),
        Some(Ok(o)) => if is_privileged(req.version) && lists_creator(o@, creators) {
            Err(bad_json("power_level_content_override.users must not contain a room creator"@))
        } else if is_privileged(req.version) {
            Ok(without_creators(merged(base, o@), creators))
        } else {
            Ok(merged(base, o@))
        },
        None => if is_privileged(req.version) {
            Ok(without_creators(base, creators))
        } else {
            Ok(base)
        },
    }
}

/// A state event with an empty state key.
pub open spec fn plain_state(event_type: Seq<char>, content: JsonV) -> CreateStepV {
    CreateStepV::SendState { event_type, state_key: Seq::empty(), content }
}

/// The events that a preset brings. A public chat gets no guest-access event:
/// guests are forbidden by default.
pub open spec fn preset_steps(preset: RoomPreset) -> Seq<CreateStepV> {
    let rule = if preset == RoomPreset::PublicChat {
        "public"@
    } else {
        "invite"@
    };
    let steps = seq![
        plain_state("m.room.join_rules"@, one_field("join_rule"@, JsonV::Str(rule))),
        plain_state(
            "m.room.history_visibility"@,
            one_field("history_visibility"@, JsonV::Str("shared"@)),
        ),
    ];
    if preset == RoomPreset::PublicChat {
        steps
    } else {
        steps.push(
            plain_state(
                "m.room.guest_access"@,
                one_field("guest_access"@, JsonV::Str("can_join"@)),
            ),
        )
    }
}

/// What one entry of `initial_state` comes to.
pub open spec fn initial_step(entry: Result<Json, String>) -> CreateStepV {
    match entry {
        Err(t) => CreateStepV::Fail(bad_json("initial_state: "@ + t@)),
        Ok(ev) => match field(ev@, "type"@) {
            Some(JsonV::Str(event_type)) => CreateStepV::SendState {
                event_type,
                state_key: match field(ev@, "state_key"@) {
                    Some(JsonV::Str(k)) => k,
                    _ => Seq::empty(),
                },
                content: match field(ev@, "content"@) {
                    Some(c) => c,
                    None => JsonV::Object(no_fields()),
                },
            },
            _ => CreateStepV::Fail(bad_json("initial_state event without type"@)),
        },
    }
}

/// The steps of `initial_state`, up to the first that fails, and whether none
/// fails.
pub open spec fn initial_steps(entries: Seq<Result<Json, String>>) -> (Seq<CreateStepV>, bool)
    decreases entries.len(),
{
    if entries.len() == 0 {
        (Seq::empty(), true)
    } else {
        let (steps, going) = initial_steps(entries.drop_last());
        let step = initial_step(entries.last());
        if going {
            (steps.push(step), !(step is Fail))
        } else {
            (steps, false)
        }
    }
}

/// The event that carries a topic: plain, and in its rich representation.
pub open spec fn topic_content(topic: Seq<char>) -> JsonV {
    JsonV::Object(
        no_fields().insert("topic"@, JsonV::Str(topic)).insert(
            "m.topic"@,
            one_field("m.text"@, JsonV::Array(seq![one_field("body"@, JsonV::Str(topic))])),
        ),
    )
}

pub open spec fn invite_step(user_id: Seq<char>, server: Seq<char>, is_direct: bool) -> CreateStepV {
    CreateStepV::Invite { user_id, remote: server_in(user_id) != Some(server), is_direct }
}

pub open spec fn invite_steps(
    invite: Seq<Seq<char>>,
    server: Seq<char>,
    is_direct: bool,
) -> Seq<CreateStepV> {
    invite.map_values(|u: Seq<char>| invite_step(u, server, is_direct))
}

pub open spec fn opt_step(o: Option<CreateStepV>) -> Seq<CreateStepV> {
    match o {
        Some(s) => seq![s],
        None => Seq::empty(),
    }
}

/// What follows the initial state: name, topic, canonical alias, invites, the
/// directory, push rules.
pub open spec fn closing_steps(
    req: CreateRoomRequest,
    alias: Option<Seq<char>>,
    server: Seq<char>,
) -> Seq<CreateStepV> {
    let name = opt_step(
        match req.name {
            Some(n) => Some(plain_state("m.room.name"@, one_field("name"@, JsonV::Str(n@)))),
            None => None,
        },
    );
    let topic = opt_step(
        match req.topic {
            Some(t) => Some(plain_state("m.room.topic"@, topic_content(t@))),
            None => None,
        },
    );
    let canonical = opt_step(
        match alias {
            Some(a) => Some(
                plain_state("m.room.canonical_alias"@, one_field("alias"@, JsonV::Str(a))),
            ),
            None => None,
        },
    );
    let listed = opt_step(
        if req.public {
            Some(CreateStepV::ListPublicly)
        } else {
            None
        },
    );
    name + topic + canonical + invite_steps(texts(req.invite@), server, req.is_direct) + listed
        + seq![CreateStepV::CopyPushRules]
}

/// What follows the creator's join.
pub open spec fn settling_steps(
    req: CreateRoomRequest,
    creator: Seq<char>,
    more_creators: Seq<Seq<char>>,
    alias: Option<Seq<char>>,
    server: Seq<char>,
) -> Seq<CreateStepV> {
    match power_levels(req, creator, more_creators) {
        Err(e) => seq![CreateStepV::Fail(e)],
        Ok(levels) => {
            let (initial, going) = initial_steps(req.initial_state@);
            seq![plain_state("m.room.power_levels"@, levels)] + preset_steps(preset_of(req))
                + initial + if going {
                closing_steps(req, alias, server)
            } else {
                Seq::empty()
            }
        },
    }
}

/// The alias that a request asks for.
pub open spec fn requested_alias(req: CreateRoomRequest, server: Seq<char>) -> Result<
    Option<Seq<char>>,
    ApiErrorV,
> {
    match req.room_alias_name {
        Some(local) => {
            let alias = alias_text(local@, server);
            if is_room_alias(alias) {
                Ok(Some(alias))
            } else {
                Err(invalid_param("room_alias_name: "@ + room_alias_fault(alias)))
            }
        },
        None => Ok(None),
    }
}

/// The answer to a request for an alias that another room has.
pub open spec fn alias_in_use() -> ApiErrorV {
    api_error(400, "M_ROOM_IN_USE"@, "Room alias already taken"@)
}

/// What makes the room, and what follows.
pub open spec fn making_steps(
    req: CreateRoomRequest,
    creator: Seq<char>,
    server: Seq<char>,
    alias: Option<Seq<char>>,
    content: Map<Seq<char>, JsonV>,
) -> Seq<CreateStepV> {
    seq![CreateStepV::CreateRoom { fields: content }] + opt_step(
        match alias {
            Some(a) => Some(CreateStepV::ReserveAlias { alias: a }),
            None => None,
        },
    ) + seq![CreateStepV::JoinCreator] + settling_steps(
        req,
        creator,
        additional_creators(content),
        alias,
        server,
    )
}

/// Everything that a `createRoom` request comes to, or why nothing is done.
/// `taken` says whether the alias that it asks for already exists.
pub open spec fn create_plan(
    req: CreateRoomRequest,
    creator: Seq<char>,
    server: Seq<char>,
    taken: bool,
) -> Result<Seq<CreateStepV>, ApiErrorV> {
    if req.version is Unsupported {
        Err(unsupported_version())
    } else {
        match (requested_alias(req, server), creation_content(req)) {
            (Err(e), _) => Err(e),
            (Ok(Some(_)), _) if taken => Err(alias_in_use()),
            (Ok(_), Err(e)) => Err(e),
            (Ok(alias), Ok(content)) => Ok(making_steps(req, creator, server, alias, content)),
        }
    }
}

/// A taken alias fails the request cleanly: nothing is created and no event is
/// sent.
pub proof fn law_taken_alias_creates_nothing(
    req: CreateRoomRequest,
    creator: Seq<char>,
    server: Seq<char>,
)
    requires
        req.version is Supported,
        requested_alias(req, server) matches Ok(Some(_)),
    ensures
        create_plan(req, creator, server, true) == Err::<Seq<CreateStepV>, ApiErrorV>(
            alias_in_use(),
        ),
{
}

fn preset_for(req: &CreateRoomRequest) -> (r: RoomPreset)
    ensures
        r == preset_of(*req),
{
    match req.preset {
        Some(p) => p,
        None => if req.public {
            RoomPreset::PublicChat
        } else {
            RoomPreset::PrivateChat
        },
    }
}

fn privileged(v: &VersionChoice) -> (r: bool)
    ensures
        r == is_privileged(*v),
{
    match v {
        VersionChoice::Supported { privileged_creators } => *privileged_creators,
        VersionChoice::Unsupported => false,
    }
}

fn user_id_array(j: &Json) -> (r: bool)
    ensures
        r == is_user_id_array(j@),
{
    let items = match j.as_array() {
        Some(items) => items,
        None => {
            return false;
        },
    };
    proof {
        lemma_items(items@);
    }
    let mut i: usize = 0;
    while i < items.len()
        invariant
            i <= items.len(),
            items_view(items@) == items@.map_values(|j: Json| j@),
            j@ == JsonV::Array(items_view(items@)),
            forall|k: int|
                0 <= k < i ==> ((#[trigger] items_view(items@)[k]) matches JsonV::Str(s)
                    && is_user_id(s)),
        decreases items.len() - i,
    {
        proof {
            assert(items_view(items@)[i as int] == items@[i as int]@);
        }
        let ok = match items[i].as_str() {
            Some(s) => check_user_id(s).is_ok(),
            None => false,
        };
        if !ok {
            return false;
        }
        i += 1;
    }
    true
}

fn copy_items(items: &Vec<Json>) -> (r: Vec<Json>)
    ensures
        items_view(r@) == items_view(items@),
{
    let mut out: Vec<Json> = Vec::new();
    let mut i: usize = 0;
    while i < items.len()
        invariant
            i <= items.len(),
            items_view(out@) == items_view(items@.take(i as int)),
        decreases items.len() - i,
    {
        proof {
            assert(items@.take(i + 1).drop_last() =~= items@.take(i as int));
        }
        let x = items[i].copy();
        proof {
            assert(out@.push(x).drop_last() =~= out@);
        }
        out.push(x);
        i += 1;
    }
    proof {
        assert(items@.take(items@.len() as int) =~= items@);
    }
    out
}

fn add_invited_creators(content: Vec<(String, Json)>, invite: &Vec<String>) -> (r: Vec<
    (String, Json),
>)
    ensures
        fields_view(r@) == with_invited_creators(fields_view(content@), texts(invite@)),
{
    let mut list: Vec<Json> = match get(&content, "additional_creators") {
        Some(j) => match j.as_array() {
            Some(items) => copy_items(items),
            None => Vec::new(),
        },
        None => Vec::new(),
    };
    let have = crate::json::read_strings(&list);
    let ghost listed = items_view(list@);
    let ghost names = texts(invite@);
    let mut i: usize = 0;
    proof {
        assert(listed + new_names(texts(have@), names.take(0)) =~= listed);
    }
    while i < invite.len()
        invariant
            i <= invite.len(),
            names == texts(invite@),
            items_view(list@) == listed + new_names(texts(have@), names.take(i as int)),
        decreases invite.len() - i,
    {
        proof {
            assert(names.take(i + 1).drop_last() =~= names.take(i as int));
            assert(names.take(i + 1).last() == invite@[i as int]@);
        }
        if !list_has(&have, invite[i].as_str()) {
            let item = text_json(invite[i].as_str());
            proof {
                assert(list@.push(item).drop_last() =~= list@);
                assert(items_view(list@.push(item)) =~= listed + new_names(
                    texts(have@),
                    names.take(i + 1),
                ));
            }
            list.push(item);
        }
        i += 1;
    }
    proof {
        assert(names.take(names.len() as int) =~= names);
        lemma_items(list@);
    }
    let mut content = content;
    if list.len() > 0 {
        put_str(&mut content, "additional_creators", Json::Array(list));
    }
    content
}

fn content_of_creation(req: &CreateRoomRequest) -> (r: Result<Vec<(String, Json)>, ApiError>)
    ensures
        match creation_content(*req) {
            Ok(m) => r matches Ok(c) && fields_view(c@) == m,
            Err(e) => r matches Err(x) && x@ == e,
        },
{
    let content: Vec<(String, Json)> = match &req.creation_content {
        Some(Ok(m)) => copy_fields(m),
        Some(Err(t)) => {
            return Err(ApiError::bad_json(join_texts("creation_content: ", t.as_str()).as_str()));
        },
        None => Vec::new(),
    };
    if !privileged(&req.version) {
        return Ok(content);
    }
    let bad = match get(&content, "additional_creators") {
        Some(v) => !user_id_array(v),
        None => false,
    };
    if bad {
        return Err(
            ApiError::bad_json("creation_content.additional_creators must be an array of user IDs"),
        );
    }
    if preset_for(req) == RoomPreset::TrustedPrivateChat {
        return Ok(add_invited_creators(content, &req.invite));
    }
    Ok(content)
}

fn level_json(level: i64) -> (r: Json)
    ensures
        r@ == JsonV::Int(level as int),
{
    Json::Int(level as i128)
}

fn users_at_start(req: &CreateRoomRequest, creator: &str) -> (r: Vec<(String, Json)>)
    ensures
        fields_view(r@) == initial_users(*req, creator@),
{
    let mut users: Vec<(String, Json)> = Vec::new();
    if !privileged(&req.version) {
        put_str(&mut users, creator, level_json(100));
    }
    let ghost base = fields_view(users@);
    if preset_for(req) == RoomPreset::TrustedPrivateChat {
        let ghost names = texts(req.invite@);
        let mut i: usize = 0;
        proof {
            assert(names.take(0) =~= Seq::<Seq<char>>::empty());
        }
        while i < req.invite.len()
            invariant
                i <= req.invite.len(),
                names == texts(req.invite@),
                fields_view(users@) == all_at_100(base, names.take(i as int)),
            decreases req.invite.len() - i,
        {
            proof {
                assert(names.take(i + 1).drop_last() =~= names.take(i as int));
                assert(names.take(i + 1).last() == req.invite@[i as int]@);
            }
            put_str(&mut users, req.invite[i].as_str(), level_json(100));
            i += 1;
        }
        proof {
            assert(names.take(names.len() as int) =~= names);
        }
    }
    users
}

fn levels_at_start(req: &CreateRoomRequest, creator: &str) -> (r: Json)
    ensures
        r@ == default_levels(*req, creator@),
{
    let events = if privileged(&req.version) {
        object_of("m.room.tombstone", level_json(150))
    } else {
        Json::Object(Vec::new())
    };
    let preset = preset_for(req);
    let invite: i64 = if preset == RoomPreset::PrivateChat || preset
        == RoomPreset::TrustedPrivateChat {
        0
    } else {
        50
    };
    let mut m: Vec<(String, Json)> = Vec::new();
    put_str(&mut m, "ban", level_json(50));
    put_str(&mut m, "events", events);
    put_str(&mut m, "events_default", level_json(0));
    put_str(&mut m, "invite", level_json(invite));
    put_str(&mut m, "kick", level_json(50));
    put_str(&mut m, "notifications", object_of("room", level_json(50)));
    put_str(&mut m, "redact", level_json(50));
    put_str(&mut m, "state_default", level_json(50));
    put_str(&mut m, "users", Json::Object(users_at_start(req, creator)));
    put_str(&mut m, "users_default", level_json(0));
    Json::Object(m)
}

fn names_creator(overrides: &Json, creators: &Vec<String>) -> (r: bool)
    ensures
        r == lists_creator(overrides@, texts(creators@)),
{
    let users = match overrides.get("users") {
        Some(u) => match u.as_object() {
            Some(users) => users,
            None => {
                return false;
            },
        },
        None => {
            return false;
        },
    };
    let ghost m = fields_view(users@);
    let mut i: usize = 0;
    while i < creators.len()
        invariant
            i <= creators.len(),
            m == fields_view(users@),
            field(overrides@, "users"@) == Some(JsonV::Object(m)),
            forall|k: int| 0 <= k < i ==> !m.dom().contains(#[trigger] texts(creators@)[k]),
        decreases creators.len() - i,
    {
        if get(users, creators[i].as_str()).is_some() {
            proof {
                assert(m.dom().contains(texts(creators@)[i as int]));
            }
            return true;
        }
        i += 1;
    }
    false
}

fn drop_creators(levels: Json, creators: &Vec<String>) -> (r: Json)
    ensures
        r@ == without_creators(levels@, texts(creators@)),
{
    let m = match levels {
        Json::Object(m) => m,
        other => {
            return other;
        },
    };
    let ghost before = fields_view(m@);
    let mut users: Vec<(String, Json)> = match get(&m, "users") {
        Some(u) => match u.as_object() {
            Some(users) => copy_fields(users),
            None => {
                return Json::Object(m);
            },
        },
        None => {
            return Json::Object(m);
        },
    };
    let ghost all = fields_view(users@);
    let ghost names = texts(creators@);
    let mut i: usize = 0;
    proof {
        assert(names.take(0) =~= Seq::<Seq<char>>::empty());
    }
    while i < creators.len()
        invariant
            i <= creators.len(),
            names == texts(creators@),
            fields_view(users@) == without(all, names.take(i as int)),
        decreases creators.len() - i,
    {
        proof {
            assert(names.take(i + 1).drop_last() =~= names.take(i as int));
            assert(names.take(i + 1).last() == creators@[i as int]@);
        }
        users = remove(users, creators[i].as_str());
        i += 1;
    }
    proof {
        assert(names.take(names.len() as int) =~= names);
    }
    let mut m = m;
    put_str(&mut m, "users", Json::Object(users));
    Json::Object(m)
}

fn levels_for(req: &CreateRoomRequest, creator: &str, more_creators: &Vec<String>) -> (r: Result<
    Json,
    ApiError,
>)
    ensures
        match power_levels(*req, creator@, texts(more_creators@)) {
            Ok(j) => r matches Ok(x) && x@ == j,
            Err(e) => r matches Err(x) && x@ == e,
        },
{
    let creators = creator_list(creator, more_creators);
    let base = levels_at_start(req, creator);
    let levels = match &req.power_level_content_override {
        Some(Err(t)) => {
            return Err(
                ApiError::bad_json(
                    join_texts("power_level_content_override: ", t.as_str()).as_str(),
                ),
            );
        },
        Some(Ok(o)) => {
            if privileged(&req.version) && names_creator(o, &creators) {
                return Err(
                    ApiError::bad_json(
                        "power_level_content_override.users must not contain a room creator",
                    ),
                );
            }
            merge_json(&base, o)
        },
        None => base,
    };
    if privileged(&req.version) {
        Ok(drop_creators(levels, &creators))
    } else {
        Ok(levels)
    }
}

fn creator_list(creator: &str, more_creators: &Vec<String>) -> (r: Vec<String>)
    ensures
        texts(r@) == seq![creator@] + texts(more_creators@),
{
    let mut out: Vec<String> = Vec::new();
    out.push(creator.to_owned());
    let ghost names = texts(more_creators@);
    let mut i: usize = 0;
    proof {
        assert(texts(out@) =~= seq![creator@] + names.take(0));
    }
    while i < more_creators.len()
        invariant
            i <= more_creators.len(),
            names == texts(more_creators@),
            texts(out@) == seq![creator@] + names.take(i as int),
        decreases more_creators.len() - i,
    {
        let s = more_creators[i].as_str().to_owned();
        proof {
            assert(texts(out@.push(s)) =~= texts(out@).push(s@));
            assert(texts(out@).push(s@) =~= seq![creator@] + names.take(i + 1));
        }
        out.push(s);
        i += 1;
    }
    proof {
        assert(names.take(names.len() as int) =~= names);
    }
    out
}

fn push_step(steps: &mut Vec<CreateStep>, step: CreateStep)
    ensures
        step_views(final(steps)@) == step_views(old(steps)@).push(step@),
{
    let ghost before = steps@;
    steps.push(step);
    proof {
        assert(step_views(steps@) =~= step_views(before).push(step@));
    }
}

fn push_state(steps: &mut Vec<CreateStep>, event_type: &str, content: Json)
    ensures
        step_views(final(steps)@) == step_views(old(steps)@).push(
            plain_state(event_type@, content@),
        ),
{
    let state_key = String::new();
    proof {
        assert(state_key@ =~= Seq::empty());
    }
    push_step(
        steps,
        CreateStep::SendState { event_type: event_type.to_owned(), state_key, content },
    );
}

fn push_preset(steps: &mut Vec<CreateStep>, preset: RoomPreset)
    ensures
        step_views(final(steps)@) == step_views(old(steps)@) + preset_steps(preset),
{
    let ghost before = step_views(steps@);
    let rule = if preset == RoomPreset::PublicChat {
        "public"
    } else {
        "invite"
    };
    push_state(steps, "m.room.join_rules", object_of("join_rule", text_json(rule)));
    push_state(
        steps,
        "m.room.history_visibility",
        object_of("history_visibility", text_json("shared")),
    );
    if preset != RoomPreset::PublicChat {
        push_state(steps, "m.room.guest_access", object_of("guest_access", text_json("can_join")));
    }
    proof {
        assert(step_views(steps@) =~= before + preset_steps(preset));
    }
}

fn step_for(entry: &Result<Json, String>) -> (r: CreateStep)
    ensures
        r@ == initial_step(*entry),
{
    match entry {
        Err(t) => CreateStep::Fail(
            ApiError::bad_json(join_texts("initial_state: ", t.as_str()).as_str()),
        ),
        Ok(ev) => match ev.get_str("type") {
            Some(t) => {
                let state_key = match ev.get_str("state_key") {
                    Some(k) => k.to_owned(),
                    None => String::new(),
                };
                let content = match ev.get("content") {
                    Some(c) => c.copy(),
                    None => Json::Object(Vec::new()),
                };
                proof {
                    assert(Seq::<char>::empty() =~= ""@) by {
                        reveal_strlit("");
                    }
                }
                CreateStep::SendState { event_type: t.to_owned(), state_key, content }
            },
            None => CreateStep::Fail(ApiError::bad_json("initial_state event without type")),
        },
    }
}

fn push_initial(steps: &mut Vec<CreateStep>, entries: &Vec<Result<Json, String>>) -> (going: bool)
    ensures
        step_views(final(steps)@) == step_views(old(steps)@) + initial_steps(entries@).0,
        going == initial_steps(entries@).1,
{
    let ghost before = step_views(steps@);
    let mut i: usize = 0;
    let mut going = true;
    proof {
        assert(before + initial_steps(entries@.take(0)).0 =~= before);
    }
    while i < entries.len() && going
        invariant
            i <= entries.len(),
            step_views(steps@) == before + initial_steps(entries@.take(i as int)).0,
            going == initial_steps(entries@.take(i as int)).1,
        decreases entries.len() - i,
    {
        proof {
            assert(entries@.take(i + 1).drop_last() =~= entries@.take(i as int));
            assert(entries@.take(i + 1).last() == entries@[i as int]);
        }
        let step = step_for(&entries[i]);
        let ghost prev = initial_steps(entries@.take(i as int)).0;
        going = match &step {
            CreateStep::Fail(_) => false,
            _ => true,
        };
        let ghost sv = step@;
        push_step(steps, step);
        proof {
            assert((before + prev).push(sv) =~= before + prev.push(sv));
        }
        i += 1;
    }
    proof {
        lemma_initial_stays(entries@, i as int);
        assert(entries@.take(entries@.len() as int) =~= entries@);
    }
    going
}

/// Once a step has failed, no later entry adds a step.
proof fn lemma_initial_stays(entries: Seq<Result<Json, String>>, i: int)
    requires
        0 <= i <= entries.len(),
        i == entries.len() || !initial_steps(entries.take(i)).1,
    ensures
        initial_steps(entries) == initial_steps(entries.take(i)),
    decreases entries.len() - i,
{
    if i == entries.len() {
        assert(entries.take(i) =~= entries);
    } else {
        assert(entries.take(i + 1).drop_last() =~= entries.take(i));
        lemma_initial_stays(entries, i + 1);
    }
}

#[verifier::spinoff_prover]
#[verifier::rlimit(40)]
fn push_closing(
    steps: &mut Vec<CreateStep>,
    req: &CreateRoomRequest,
    alias: &Option<String>,
    server_name: &str,
)
    ensures
        step_views(final(steps)@) == step_views(old(steps)@) + closing_steps(
            *req,
            opt_text(*alias),
            server_name@,
        ),
{
    let ghost before = step_views(steps@);
    match &req.name {
        Some(n) => {
            push_state(steps, "m.room.name", object_of("name", text_json(n.as_str())));
        },
        None => {},
    }
    let ghost s1 = step_views(steps@);
    match &req.topic {
        Some(t) => {
            let mut m: Vec<(String, Json)> = Vec::new();
            put_str(&mut m, "topic", text_json(t.as_str()));
            put_str(
                &mut m,
                "m.topic",
                object_of("m.text", array_of(object_of("body", text_json(t.as_str())))),
            );
            push_state(steps, "m.room.topic", Json::Object(m));
        },
        None => {},
    }
    let ghost s2 = step_views(steps@);
    match alias {
        Some(a) => {
            push_state(steps, "m.room.canonical_alias", object_of("alias", text_json(a.as_str())));
        },
        None => {},
    }
    let ghost s3 = step_views(steps@);
    let ghost names = texts(req.invite@);
    let ghost invites = invite_steps(names, server_name@, req.is_direct);
    let mut i: usize = 0;
    proof {
        assert(s3 + invites.take(0) =~= s3);
    }
    while i < req.invite.len()
        invariant
            i <= req.invite.len(),
            names == texts(req.invite@),
            invites == invite_steps(names, server_name@, req.is_direct),
            step_views(steps@) == s3 + invites.take(i as int),
        decreases req.invite.len() - i,
    {
        let user_id = req.invite[i].as_str();
        let remote = match server_part(user_id) {
            Some(s) => !same_text(s.as_str(), server_name),
            None => true,
        };
        let step = CreateStep::Invite {
            user_id: user_id.to_owned(),
            remote,
            is_direct: req.is_direct,
        };
        let ghost sv = step@;
        push_step(steps, step);
        proof {
            assert(sv == invites[i as int]);
            assert((s3 + invites.take(i as int)).push(sv) =~= s3 + invites.take(i + 1));
        }
        i += 1;
    }
    let ghost s4 = step_views(steps@);
    if req.public {
        push_step(steps, CreateStep::ListPublicly);
    }
    let ghost s5 = step_views(steps@);
    push_step(steps, CreateStep::CopyPushRules);
    proof {
        assert(invites.take(invites.len() as int) =~= invites);
        let name = opt_step(
            match &req.name {
                Some(n) => Some(plain_state("m.room.name"@, one_field("name"@, JsonV::Str(n@)))),
                None => None,
            },
        );
        let topic = opt_step(
            match &req.topic {
                Some(t) => Some(plain_state("m.room.topic"@, topic_content(t@))),
                None => None,
            },
        );
        let canonical = opt_step(
            match opt_text(*alias) {
                Some(a) => Some(
                    plain_state("m.room.canonical_alias"@, one_field("alias"@, JsonV::Str(a))),
                ),
                None => None,
            },
        );
        assert(s1 =~= before + name);
        assert(s2 =~= s1 + topic);
        assert(s3 =~= s2 + canonical);
        assert(step_views(steps@) =~= before + closing_steps(
            *req,
            opt_text(*alias),
            server_name@,
        ));
    }
}

/// The alias that a `createRoom` request asks for. Whether it is taken is to be
/// found out before anything else is done.
pub fn alias_for(req: &CreateRoomRequest, server_name: &str) -> (r: Result<
    Option<String>,
    ApiError,
>)
    ensures
        match requested_alias(*req, server_name@) {
            Ok(a) => r matches Ok(x) && opt_text(x) == a,
            Err(e) => r matches Err(x) && x@ == e,
        },
{
    match &req.room_alias_name {
        Some(local) => {
            let mut alias = String::new();
            alias.push('#');
            alias.append(local.as_str());
            alias.push(':');
            alias.append(server_name);
            proof {
                assert(alias@ =~= alias_text(local@, server_name@));
            }
            match check_room_alias(alias.as_str()) {
                Ok(()) => Ok(Some(alias)),
                Err(t) => Err(
                    ApiError::invalid_param(join_texts("room_alias_name: ", t.as_str()).as_str()),
                ),
            }
        },
        None => Ok(None),
    }
}

fn make_room(
    req: &CreateRoomRequest,
    creator: &str,
    server_name: &str,
    alias: Option<String>,
    content: Vec<(String, Json)>,
) -> (r: Vec<CreateStep>)
    ensures
        step_views(r@) == making_steps(
            *req,
            creator@,
            server_name@,
            opt_text(alias),
            fields_view(content@),
        ),
{
    let more_creators = read_strings_in(get(&content, "additional_creators"));
    let ghost cm = fields_view(content@);
    let mut steps: Vec<CreateStep> = Vec::new();
    proof {
        assert(step_views(steps@) =~= Seq::<CreateStepV>::empty());
        assert(texts(more_creators@) == additional_creators(cm));
    }
    push_step(&mut steps, CreateStep::CreateRoom { fields: content });
    match &alias {
        Some(a) => {
            push_step(&mut steps, CreateStep::ReserveAlias { alias: a.as_str().to_owned() });
        },
        None => {},
    }
    push_step(&mut steps, CreateStep::JoinCreator);
    let ghost head = step_views(steps@);
    let ghost av = opt_text(alias);
    proof {
        assert(head =~= seq![CreateStepV::CreateRoom { fields: cm }] + opt_step(
            match av {
                Some(a) => Some(CreateStepV::ReserveAlias { alias: a }),
                None => None,
            },
        ) + seq![CreateStepV::JoinCreator]);
    }
    match levels_for(req, creator, &more_creators) {
        Err(e) => {
            push_step(&mut steps, CreateStep::Fail(e));
        },
        Ok(levels) => {
            push_state(&mut steps, "m.room.power_levels", levels);
            push_preset(&mut steps, preset_for(req));
            if push_initial(&mut steps, &req.initial_state) {
                push_closing(&mut steps, req, &alias, server_name);
            }
        },
    }
    proof {
        assert(step_views(steps@) =~= head + settling_steps(
            *req,
            creator@,
            additional_creators(cm),
            av,
            server_name@,
        ));
    }
    steps
}

/// How a request for a taken alias is answered.
pub fn room_in_use() -> (r: ApiError)
    ensures
        r@ == alias_in_use(),
{
    ApiError::new(400, "M_ROOM_IN_USE", "Room alias already taken")
}

/// `POST /createRoom`: what to do, in order, where `taken` says whether the alias
/// that is asked for already exists. A taken alias fails the request before
/// anything is done.
pub fn create_room(req: &CreateRoomRequest, creator: &str, server_name: &str, taken: bool) -> (r:
    Result<Vec<CreateStep>, ApiError>)
    ensures
        match create_plan(*req, creator@, server_name@, taken) {
            Ok(steps) => r matches Ok(v) && step_views(v@) == steps,
            Err(e) => r matches Err(x) && x@ == e,
        },
{
    match req.version {
        VersionChoice::Unsupported => {
            return Err(
                ApiError::new(
                    400,
                    "M_UNSUPPORTED_ROOM_VERSION",
                    "This server does not support that room version",
                ),
            );
        },
        _ => {},
    }
    let alias = match alias_for(req, server_name) {
        Ok(a) => a,
        Err(e) => {
            return Err(e);
        },
    };
    if taken && alias.is_some() {
        return Err(room_in_use());
    }
    let content = match content_of_creation(req) {
        Ok(c) => c,
        Err(e) => {
            return Err(e);
        },
    };
    Ok(make_room(req, creator, server_name, alias, content))
}

/// No name that was taken out is left.
pub proof fn lemma_without(m: Map<Seq<char>, JsonV>, names: Seq<Seq<char>>)
    ensures
        forall|k: Seq<char>| #[trigger]
            without(m, names).dom().contains(k) <==> m.dom().contains(k) && !names.contains(k),
        forall|k: Seq<char>| #[trigger]
            without(m, names).dom().contains(k) ==> without(m, names)[k] == m[k],
    decreases names.len(),
{
    if names.len() > 0 {
        let init = names.drop_last();
        lemma_without(m, init);
        let w = without(m, names);
        let v = without(m, init);
        assert forall|k: Seq<char>| (#[trigger] w.dom().contains(k) <==> m.dom().contains(k)
            && !names.contains(k)) && (w.dom().contains(k) ==> w[k] == m[k]) by {
            assert(v.dom().contains(k) <==> m.dom().contains(k) && !init.contains(k));
            if names.contains(k) {
                let i = choose|i: int| 0 <= i < names.len() && names[i] == k;
                if i < init.len() {
                    assert(init[i] == k);
                }
            }
            if init.contains(k) {
                let i = choose|i: int| 0 <= i < init.len() && init[i] == k;
                assert(names[i] == k);
            }
            if k == names.last() {
                assert(names[names.len() - 1] == k);
            }
        }
    }
}

/// Where creators are privileged, the power levels of a new room give none of
/// them a level.
pub proof fn law_privileged_creators_have_no_level(
    req: CreateRoomRequest,
    creator: Seq<char>,
    more_creators: Seq<Seq<char>>,
)
    requires
        is_privileged(req.version),
    ensures
        power_levels(req, creator, more_creators) matches Ok(levels) ==> {
            &&& field2(levels, "users"@, creator) is None
            &&& forall|i: int|
                0 <= i < more_creators.len() ==> field2(
                    levels,
                    "users"@,
                    #[trigger] more_creators[i],
                ) is None
        },
{
    let creators = seq![creator] + more_creators;
    match power_levels(req, creator, more_creators) {
        Ok(levels) => {
            let before = match req.power_level_content_override {
                Some(Ok(o)) => merged(default_levels(req, creator), o@),
                _ => default_levels(req, creator),
            };
            assert(levels == without_creators(before, creators));
            match field(before, "users"@) {
                Some(JsonV::Object(users)) => {
                    lemma_without(users, creators);
                    assert(creators[0] == creator);
                    assert(creators.contains(creator));
                    assert forall|i: int| 0 <= i < more_creators.len() implies field2(
                        levels,
                        "users"@,
                        #[trigger] more_creators[i],
                    ) is None by {
                        assert(creators[i + 1] == more_creators[i]);
                        assert(creators.contains(more_creators[i]));
                    }
                },
                _ => {},
            }
        },
        Err(_) => {},
    }
}

// -- upgrades -----------------------------------------------------------------

/// The kinds of state that a replacement room takes over, power levels first
/// so the copied settings land under the upgrader's still-elevated defaults.
pub open spec fn transferable() -> Seq<Seq<char>> {
    seq![
        "m.room.power_levels"@,
        "m.room.join_rules"@,
        "m.room.history_visibility"@,
        "m.room.guest_access"@,
        "m.room.name"@,
        "m.room.topic"@,
        "m.room.avatar"@,
        "m.room.encryption"@,
        "m.room.server_acl"@,
    ]
}

/// The kinds of state that a replacement room takes over.
pub fn transferable_types() -> (r: Vec<String>)
    ensures
        texts(r@) == transferable(),
{
    let mut v: Vec<String> = Vec::new();
    v.push("m.room.power_levels".to_owned());
    v.push("m.room.join_rules".to_owned());
    v.push("m.room.history_visibility".to_owned());
    v.push("m.room.guest_access".to_owned());
    v.push("m.room.name".to_owned());
    v.push("m.room.topic".to_owned());
    v.push("m.room.avatar".to_owned());
    v.push("m.room.encryption".to_owned());
    v.push("m.room.server_acl".to_owned());
    proof {
        assert(texts(v@) =~= transferable());
    }
    v
}

/// The version that an upgrade request asks for.
pub fn upgrade_version(body: &Vec<(String, Json)>) -> (r: Result<String, ApiError>)
    ensures
        match field(JsonV::Object(fields_view(body@)), "new_version"@) {
            Some(JsonV::Str(v)) => r matches Ok(t) && t@ == v,
            _ => r matches Err(e) && e@ == invalid_param("Missing new_version"@),
        },
{
    match get(body, "new_version") {
        Some(j) => match j.as_str() {
            Some(s) => Ok(s.to_owned()),
            None => Err(ApiError::invalid_param("Missing new_version")),
        },
        None => Err(ApiError::invalid_param("Missing new_version")),
    }
}

/// What an upgrade starts from.
#[derive(Debug)]
pub struct UpgradeFacts {
    pub version: VersionChoice,
    /// May the upgrader send the old room's tombstone?
    pub may_tombstone: bool,
    /// The content of the old room's create event.
    pub old_creation: Option<Json>,
    /// The latest event of the old room.
    pub last_event: Option<String>,
    /// The contents of the old room's transferable state, for each kind in the
    /// order of `transferable_types`.
    pub old_state: Vec<Option<Json>>,
}

/// The creators that a replacement room lists: those of the request, which
/// must be user IDs, else those of the old room.
pub open spec fn upgrade_creators(
    body: Map<Seq<char>, JsonV>,
    old: Map<Seq<char>, JsonV>,
) -> Result<Seq<Seq<char>>, ApiErrorV> {
    match field(JsonV::Object(body), "additional_creators"@) {
        Some(v) => if is_user_id_array(v) {
            Ok(strings_in(Some(v)))
        } else {
            Err(bad_json("additional_creators must be an array of user IDs"@))
        },
        None => Ok(additional_creators(old)),
    }
}

/// The old create event's content without what the server manages.
pub open spec fn carried_content(old: Option<JsonV>) -> Map<Seq<char>, JsonV> {
    let m = match old {
        Some(JsonV::Object(m)) => m,
        _ => no_fields(),
    };
    m.remove("room_version"@).remove("creator"@).remove("predecessor"@)
}

/// The pointer back at the room that is replaced. Where creators are
/// privileged, the room ID stands for the create event, and no event is named.
pub open spec fn predecessor_json(
    privileged_creators: bool,
    room_id: Seq<char>,
    last_event: Option<Seq<char>>,
) -> JsonV {
    let m = no_fields().insert("room_id"@, JsonV::Str(room_id));
    match last_event {
        Some(id) => if privileged_creators {
            JsonV::Object(m)
        } else {
            JsonV::Object(m.insert("event_id"@, JsonV::Str(id)))
        },
        None => JsonV::Object(m),
    }
}

/// The content of the replacement's create event.
pub open spec fn replacement_content(
    facts: UpgradeFacts,
    creators: Seq<Seq<char>>,
    room_id: Seq<char>,
) -> Map<Seq<char>, JsonV> {
    let old = carried_content(crate::routes::rooms::opt_json(facts.old_creation));
    let base = if is_privileged(facts.version) && creators.len() > 0 {
        old.insert("additional_creators"@, strings_json(creators))
    } else {
        old.remove("additional_creators"@)
    };
    base.insert(
        "predecessor"@,
        predecessor_json(is_privileged(facts.version), room_id, opt_text(facts.last_event)),
    )
}

/// The power levels of the replacement. Where creators are privileged they are
/// not listed; elsewhere the upgrader is listed at 100 at least.
pub open spec fn upgraded_levels(
    levels: JsonV,
    privileged_creators: bool,
    upgrader: Seq<char>,
    creators: Seq<Seq<char>>,
) -> JsonV {
    let m = match levels {
        JsonV::Object(m) => m,
        _ => no_fields(),
    };
    let users = match field(JsonV::Object(m), "users"@) {
        Some(u) => u,
        None => JsonV::Object(no_fields()),
    };
    let new_users = match users {
        JsonV::Object(u) => if privileged_creators {
            JsonV::Object(without(u, seq![upgrader] + creators))
        } else {
            let level = match as_int64(field(users, upgrader)) {
                Some(l) => l,
                None => 0,
            };
            if level < 100 {
                JsonV::Object(u.insert(upgrader, JsonV::Int(100)))
            } else {
                users
            }
        },
        _ => users,
    };
    JsonV::Object(m.insert("users"@, new_users))
}

/// The state that is copied: one event for each kind that the old room has.
pub open spec fn transfer_steps(
    state: Seq<Option<Json>>,
    privileged_creators: bool,
    upgrader: Seq<char>,
    creators: Seq<Seq<char>>,
    n: int,
) -> Seq<CreateStepV>
    decreases n,
{
    if n <= 0 {
        Seq::empty()
    } else {
        let init = transfer_steps(state, privileged_creators, upgrader, creators, n - 1);
        match state[n - 1] {
            Some(c) => init.push(
                plain_state(
                    transferable()[n - 1],
                    if n == 1 {
                        upgraded_levels(c@, privileged_creators, upgrader, creators)
                    } else {
                        c@
                    },
                ),
            ),
            None => init,
        }
    }
}

/// Everything that an upgrade comes to, or why nothing is done.
pub open spec fn upgrade_plan(
    facts: UpgradeFacts,
    body: Map<Seq<char>, JsonV>,
    upgrader: Seq<char>,
    room_id: Seq<char>,
) -> Result<Seq<CreateStepV>, ApiErrorV> {
    if facts.version is Unsupported {
        Err(unsupported_version())
    } else if !facts.may_tombstone {
        Err(forbidden("Not permitted to tombstone this room"@))
    } else {
        match upgrade_creators(
            body,
            carried_content(crate::routes::rooms::opt_json(facts.old_creation)),
        ) {
            Err(e) => Err(e),
            Ok(creators) => Ok(
                seq![
                    CreateStepV::CreateRoom {
                        fields: replacement_content(facts, creators, room_id),
                    },
                    CreateStepV::JoinCreator,
                ] + transfer_steps(
                    facts.old_state@,
                    is_privileged(facts.version),
                    upgrader,
                    creators,
                    transferable().len() as int,
                ) + if is_room_id(room_id) {
                    seq![CreateStepV::Tombstone, CreateStepV::CopyPushRules]
                } else {
                    seq![
                        CreateStepV::Fail(invalid_param("room_id: "@ + room_id_fault(room_id))),
                    ]
                },
            ),
        }
    }
}

fn creators_for_upgrade(body: &Vec<(String, Json)>, old: &Vec<(String, Json)>) -> (r: Result<
    Vec<String>,
    ApiError,
>)
    ensures
        match upgrade_creators(fields_view(body@), fields_view(old@)) {
            Ok(c) => r matches Ok(v) && texts(v@) == c,
            Err(e) => r matches Err(x) && x@ == e,
        },
{
    match get(body, "additional_creators") {
        Some(v) => if user_id_array(v) {
            Ok(read_strings_in(Some(v)))
        } else {
            Err(ApiError::bad_json("additional_creators must be an array of user IDs"))
        },
        None => Ok(read_strings_in(get(old, "additional_creators"))),
    }
}

fn carry_content(old: &Option<Json>) -> (r: Vec<(String, Json)>)
    ensures
        fields_view(r@) == carried_content(crate::routes::rooms::opt_json(*old)),
{
    let m: Vec<(String, Json)> = match old {
        Some(j) => match j.as_object() {
            Some(m) => copy_fields(m),
            None => Vec::new(),
        },
        None => Vec::new(),
    };
    remove(remove(remove(m, "room_version"), "creator"), "predecessor")
}

fn levels_for_upgrade(
    levels: &Json,
    privileged_creators: bool,
    upgrader: &str,
    creators: &Vec<String>,
) -> (r: Json)
    ensures
        r@ == upgraded_levels(levels@, privileged_creators, upgrader@, texts(creators@)),
{
    let mut m: Vec<(String, Json)> = match levels.as_object() {
        Some(m) => copy_fields(m),
        None => Vec::new(),
    };
    let users: Json = match get(&m, "users") {
        Some(u) => u.copy(),
        None => Json::Object(Vec::new()),
    };
    let level: i64 = match users.get(upgrader) {
        Some(l) => match l.as_i64() {
            Some(l) => l,
            None => 0,
        },
        None => 0,
    };
    let new_users = match users {
        Json::Object(u) => if privileged_creators {
            let all = creator_list(upgrader, creators);
            Json::Object(drop_names(u, &all))
        } else if level < 100 {
            let mut u = u;
            put_str(&mut u, upgrader, level_json(100));
            Json::Object(u)
        } else {
            Json::Object(u)
        },
        other => other,
    };
    put_str(&mut m, "users", new_users);
    Json::Object(m)
}

fn drop_names(m: Vec<(String, Json)>, names: &Vec<String>) -> (r: Vec<(String, Json)>)
    ensures
        fields_view(r@) == without(fields_view(m@), texts(names@)),
{
    let ghost all = fields_view(m@);
    let ghost views = texts(names@);
    let mut m = m;
    let mut i: usize = 0;
    proof {
        assert(views.take(0) =~= Seq::<Seq<char>>::empty());
    }
    while i < names.len()
        invariant
            i <= names.len(),
            views == texts(names@),
            fields_view(m@) == without(all, views.take(i as int)),
        decreases names.len() - i,
    {
        proof {
            assert(views.take(i + 1).drop_last() =~= views.take(i as int));
            assert(views.take(i + 1).last() == names@[i as int]@);
        }
        m = remove(m, names[i].as_str());
        i += 1;
    }
    proof {
        assert(views.take(views.len() as int) =~= views);
    }
    m
}

/// `POST /rooms/{roomId}/upgrade`: replace a room with a new-version copy.
/// Creates the replacement with a `predecessor` pointer, migrates the
/// transferable state, and tombstones the old room.
pub fn upgrade_room(
    facts: &UpgradeFacts,
    body: &Vec<(String, Json)>,
    upgrader: &str,
    room_id: &str,
) -> (r: Result<Vec<CreateStep>, ApiError>)
    requires
        facts.old_state@.len() == transferable().len(),
    ensures
        match upgrade_plan(*facts, fields_view(body@), upgrader@, room_id@) {
            Ok(steps) => r matches Ok(v) && step_views(v@) == steps,
            Err(e) => r matches Err(x) && x@ == e,
        },
{
    match facts.version {
        VersionChoice::Unsupported => {
            return Err(
                ApiError::new(
                    400,
                    "M_UNSUPPORTED_ROOM_VERSION",
                    "This server does not support that room version",
                ),
            );
        },
        _ => {},
    }
    if !facts.may_tombstone {
        return Err(ApiError::forbidden("Not permitted to tombstone this room"));
    }
    let mut content = carry_content(&facts.old_creation);
    let creators = match creators_for_upgrade(body, &content) {
        Ok(c) => c,
        Err(e) => {
            return Err(e);
        },
    };
    let special = privileged(&facts.version);
    if special && creators.len() > 0 {
        put_str(&mut content, "additional_creators", string_array(&creators));
    } else {
        content = remove(content, "additional_creators");
    }
    let mut predecessor: Vec<(String, Json)> = Vec::new();
    put_str(&mut predecessor, "room_id", text_json(room_id));
    match &facts.last_event {
        Some(id) => {
            if !special {
                put_str(&mut predecessor, "event_id", text_json(id.as_str()));
            }
        },
        None => {},
    }
    put_str(&mut content, "predecessor", Json::Object(predecessor));
    let ghost cm = fields_view(content@);
    let ghost names = texts(creators@);
    let mut steps: Vec<CreateStep> = Vec::new();
    proof {
        assert(cm == replacement_content(*facts, names, room_id@));
        assert(step_views(steps@) =~= Seq::<CreateStepV>::empty());
    }
    push_step(&mut steps, CreateStep::CreateRoom { fields: content });
    push_step(&mut steps, CreateStep::JoinCreator);
    let ghost head = step_views(steps@);
    let types = transferable_types();
    let mut i: usize = 0;
    proof {
        assert(head + transfer_steps(facts.old_state@, special, upgrader@, names, 0) =~= head);
    }
    while i < types.len()
        invariant
            i <= types.len(),
            texts(types@) == transferable(),
            facts.old_state@.len() == transferable().len(),
            names == texts(creators@),
            step_views(steps@) == head + transfer_steps(
                facts.old_state@,
                special,
                upgrader@,
                names,
                i as int,
            ),
        decreases types.len() - i,
    {
        let ghost init = transfer_steps(facts.old_state@, special, upgrader@, names, i as int);
        proof {
            assert(texts(types@).len() == types@.len());
            assert(texts(types@)[i as int] == types@[i as int]@);
        }
        match &facts.old_state[i] {
            Some(c) => {
                let content = if i == 0 {
                    levels_for_upgrade(c, special, upgrader, &creators)
                } else {
                    c.copy()
                };
                let ghost sv = plain_state(types@[i as int]@, content@);
                push_state(&mut steps, types[i].as_str(), content);
                proof {
                    assert((head + init).push(sv) =~= head + init.push(sv));
                }
            },
            None => {},
        }
        i += 1;
    }
    let ghost moved = step_views(steps@);
    match check_room_id(room_id) {
        Ok(()) => {
            push_step(&mut steps, CreateStep::Tombstone);
            push_step(&mut steps, CreateStep::CopyPushRules);
        },
        Err(t) => {
            push_step(
                &mut steps,
                CreateStep::Fail(
                    ApiError::invalid_param(join_texts("room_id: ", t.as_str()).as_str()),
                ),
            );
        },
    }
    proof {
        assert(texts(types@).len() == types@.len());
        let tail = if is_room_id(room_id@) {
            seq![CreateStepV::Tombstone, CreateStepV::CopyPushRules]
        } else {
            seq![CreateStepV::Fail(invalid_param("room_id: "@ + room_id_fault(room_id@)))]
        };
        assert(step_views(steps@) =~= moved + tail);
        assert(head =~= seq![CreateStepV::CreateRoom { fields: cm }, CreateStepV::JoinCreator]);
    }
    Ok(steps)
}

/// The content of the old room's tombstone: clients follow it to the
/// replacement.
pub fn tombstone_content(new_room_id: &str) -> (r: Json)
    ensures
        r@ == JsonV::Object(
            no_fields().insert("body"@, JsonV::Str("This room has been replaced"@)).insert(
                "replacement_room"@,
                JsonV::Str(new_room_id@),
            ),
        ),
{
    let mut m: Vec<(String, Json)> = Vec::new();
    put_str(&mut m, "body", text_json("This room has been replaced"));
    put_str(&mut m, "replacement_room", text_json(new_room_id));
    Json::Object(m)
}

/// An upgrade never locks the upgrader out: they are a privileged creator of
/// the replacement, or its power levels list them at 100 or more. (Levels whose
/// `users` is no object list nobody.)
pub proof fn law_upgrader_keeps_power(
    levels: JsonV,
    upgrader: Seq<char>,
    creators: Seq<Seq<char>>,
)
    requires
        field(levels, "users"@) matches Some(u) ==> u is Object,
    ensures
        as_int64(field2(upgraded_levels(levels, false, upgrader, creators), "users"@, upgrader))
            matches Some(l) && l >= 100,
{
}

/// The power levels of a replacement with privileged creators list neither the
/// upgrader nor the creators it names.
pub proof fn law_upgrade_lists_no_creator(
    levels: JsonV,
    upgrader: Seq<char>,
    creators: Seq<Seq<char>>,
)
    ensures
        ({
            let up = upgraded_levels(levels, true, upgrader, creators);
            &&& field2(up, "users"@, upgrader) is None
            &&& forall|i: int|
                0 <= i < creators.len() ==> field2(up, "users"@, #[trigger] creators[i]) is None
        }),
{
    let m = match levels {
        JsonV::Object(m) => m,
        _ => no_fields(),
    };
    let users = match field(JsonV::Object(m), "users"@) {
        Some(u) => u,
        None => JsonV::Object(no_fields()),
    };
    let all = seq![upgrader] + creators;
    match users {
        JsonV::Object(u) => {
            lemma_without(u, all);
            assert(all[0] == upgrader);
            assert(all.contains(upgrader));
            let up = upgraded_levels(levels, true, upgrader, creators);
            assert forall|i: int| 0 <= i < creators.len() implies field2(
                up,
                "users"@,
                #[trigger] creators[i],
            ) is None by {
                assert(all[i + 1] == creators[i]);
                assert(all.contains(creators[i]));
            }
        },
        _ => {},
    }
}

// -- what creating a room is for ----------------------------------------------

/// Does a step of a request fail?
pub open spec fn some_step_fails(steps: Seq<CreateStepV>) -> bool {
    exists|i: int| 0 <= i < steps.len() && (#[trigger] steps[i]) is Fail
}

proof fn lemma_joined_contains(a: Seq<CreateStepV>, b: Seq<CreateStepV>, x: CreateStepV)
    ensures
        (a + b).contains(x) <==> a.contains(x) || b.contains(x),
{
    if a.contains(x) {
        let i = choose|i: int| 0 <= i < a.len() && a[i] == x;
        assert((a + b)[i] == x);
    }
    if b.contains(x) {
        let i = choose|i: int| 0 <= i < b.len() && b[i] == x;
        assert((a + b)[a.len() + i] == x);
    }
    if (a + b).contains(x) {
        let i = choose|i: int| 0 <= i < (a + b).len() && (a + b)[i] == x;
        if i < a.len() {
            assert(a[i] == x);
        } else {
            assert(b[i - a.len()] == x);
        }
    }
}

proof fn lemma_initial_steps(entries: Seq<Result<Json, String>>)
    ensures
        initial_steps(entries).1 ==> {
            &&& initial_steps(entries).0.len() == entries.len()
            &&& forall|i: int|
                #![trigger entries[i]]
                0 <= i < entries.len() ==> initial_steps(entries).0[i] == initial_step(entries[i])
                    && !(initial_step(entries[i]) is Fail)
        },
        !initial_steps(entries).1 ==> initial_steps(entries).0.len() > 0 && initial_steps(
            entries,
        ).0.last() is Fail,
        forall|i: int|
            #![trigger entries[i]]
            0 <= i < entries.len() && initial_step(entries[i]) is Fail ==> !initial_steps(
                entries,
            ).1,
    decreases entries.len(),
{
    if entries.len() > 0 {
        let init = entries.drop_last();
        lemma_initial_steps(init);
        assert(entries[entries.len() - 1] == entries.last());
        assert forall|i: int| 0 <= i < init.len() implies #[trigger] entries[i] == init[i] by {}
    }
}

/// How the steps of a room that fails nowhere are put together.
proof fn lemma_plan_parts(
    req: CreateRoomRequest,
    creator: Seq<char>,
    server: Seq<char>,
    taken: bool,
    steps: Seq<CreateStepV>,
) -> (parts: (Seq<CreateStepV>, JsonV, Option<Seq<char>>))
    requires
        create_plan(req, creator, server, taken) == Ok::<Seq<CreateStepV>, ApiErrorV>(steps),
        !some_step_fails(steps),
    ensures
        requested_alias(req, server) == Ok::<Option<Seq<char>>, ApiErrorV>(parts.2),
        creation_content(req) matches Ok(content) && power_levels(
            req,
            creator,
            additional_creators(content),
        ) == Ok::<JsonV, ApiErrorV>(parts.1) && parts.0 == seq![
            CreateStepV::CreateRoom { fields: content },
        ] + opt_step(
            match parts.2 {
                Some(a) => Some(CreateStepV::ReserveAlias { alias: a }),
                None => None,
            },
        ) + seq![CreateStepV::JoinCreator],
        initial_steps(req.initial_state@).1,
        steps == parts.0 + (seq![plain_state("m.room.power_levels"@, parts.1)] + preset_steps(
            preset_of(req),
        ) + initial_steps(req.initial_state@).0 + closing_steps(req, parts.2, server)),
{
    let alias = requested_alias(req, server)->Ok_0;
    let content = creation_content(req)->Ok_0;
    let more = additional_creators(content);
    let head = seq![CreateStepV::CreateRoom { fields: content }] + opt_step(
        match alias {
            Some(a) => Some(CreateStepV::ReserveAlias { alias: a }),
            None => None,
        },
    ) + seq![CreateStepV::JoinCreator];
    let tail = settling_steps(req, creator, more, alias, server);
    assert(steps == head + tail);
    lemma_initial_steps(req.initial_state@);
    match power_levels(req, creator, more) {
        Err(e) => {
            assert(steps[head.len() as int] is Fail);
            (head, JsonV::Null, alias)
        },
        Ok(levels) => {
            let (initial, going) = initial_steps(req.initial_state@);
            let front = seq![plain_state("m.room.power_levels"@, levels)] + preset_steps(
                preset_of(req),
            );
            if !going {
                let k = head.len() + front.len() + initial.len() - 1;
                assert(tail =~= front + initial);
                assert(tail[front.len() + initial.len() - 1] == initial.last());
                assert(steps[k] is Fail);
            }
            (head, levels, alias)
        },
    }
}

/// The state that a request brings is sent: for every entry of `initial_state`
/// of a request that fails nowhere there is an event with the entry's type, its
/// state key, and its content.
pub proof fn law_initial_state_is_sent(
    req: CreateRoomRequest,
    creator: Seq<char>,
    server: Seq<char>,
    taken: bool,
    steps: Seq<CreateStepV>,
    i: int,
)
    requires
        create_plan(req, creator, server, taken) == Ok::<Seq<CreateStepV>, ApiErrorV>(steps),
        !some_step_fails(steps),
        0 <= i < req.initial_state@.len(),
    ensures
        req.initial_state@[i] matches Ok(ev) && field(ev@, "type"@) matches Some(JsonV::Str(kind))
            && steps.contains(
            CreateStepV::SendState {
                event_type: kind,
                state_key: match field(ev@, "state_key"@) {
                    Some(JsonV::Str(k)) => k,
                    _ => Seq::empty(),
                },
                content: match field(ev@, "content"@) {
                    Some(c) => c,
                    None => JsonV::Object(Map::empty()),
                },
            },
        ),
{
    let (head, levels, alias) = lemma_plan_parts(req, creator, server, taken, steps);
    lemma_initial_steps(req.initial_state@);
    let initial = initial_steps(req.initial_state@).0;
    let x = initial_step(req.initial_state@[i]);
    assert(initial[i] == x);
    assert(initial.contains(x));
    let front = seq![plain_state("m.room.power_levels"@, levels)] + preset_steps(preset_of(req));
    let closing = closing_steps(req, alias, server);
    lemma_joined_contains(front, initial, x);
    lemma_joined_contains(front + initial, closing, x);
    lemma_joined_contains(head, front + initial + closing, x);
}

/// An entry of `initial_state` that cannot be read, or has no type, fails the
/// request: the last thing done is to fail, with 400.
pub proof fn law_bad_initial_state_fails(
    req: CreateRoomRequest,
    creator: Seq<char>,
    server: Seq<char>,
    taken: bool,
    steps: Seq<CreateStepV>,
    i: int,
)
    requires
        create_plan(req, creator, server, taken) == Ok::<Seq<CreateStepV>, ApiErrorV>(steps),
        0 <= i < req.initial_state@.len(),
        match req.initial_state@[i] {
            Ok(ev) => !(field(ev@, "type"@) matches Some(JsonV::Str(_))),
            Err(_) => true,
        },
    ensures
        steps.len() > 0 && (steps.last() matches CreateStepV::Fail(e) && e.status == 400),
{
    let alias = requested_alias(req, server)->Ok_0;
    let content = creation_content(req)->Ok_0;
    let more = additional_creators(content);
    let tail = settling_steps(req, creator, more, alias, server);
    lemma_initial_steps(req.initial_state@);
    lemma_initial_fails(req.initial_state@);
    assert(tail.last() == steps.last());
}

proof fn lemma_initial_fails(entries: Seq<Result<Json, String>>)
    ensures
        !initial_steps(entries).1 ==> initial_steps(entries).0.len() > 0 && (initial_steps(
            entries,
        ).0.last() matches CreateStepV::Fail(e) && e.status == 400),
    decreases entries.len(),
{
    if entries.len() > 0 {
        lemma_initial_fails(entries.drop_last());
    }
}

/// A new room has what was asked for: the alias it asks for, its name, its
/// topic, its canonical alias, an invite for each invited user, remote exactly
/// where they live on another server, and a place in the directory exactly
/// where it is public.
#[verifier::spinoff_prover]
#[verifier::rlimit(30)]
pub proof fn law_new_rooms_have_what_was_asked_for(
    req: CreateRoomRequest,
    creator: Seq<char>,
    server: Seq<char>,
    taken: bool,
    steps: Seq<CreateStepV>,
    i: int,
)
    requires
        create_plan(req, creator, server, taken) == Ok::<Seq<CreateStepV>, ApiErrorV>(steps),
        !some_step_fails(steps),
    ensures
        req.room_alias_name matches Some(local) ==> {
            let alias = seq!['#'] + local@ + seq![':'] + server;
            &&& steps.contains(CreateStepV::ReserveAlias { alias })
            &&& steps.contains(
                CreateStepV::SendState {
                    event_type: "m.room.canonical_alias"@,
                    state_key: Seq::empty(),
                    content: JsonV::Object(Map::empty().insert("alias"@, JsonV::Str(alias))),
                },
            )
        },
        req.name matches Some(n) ==> steps.contains(
            CreateStepV::SendState {
                event_type: "m.room.name"@,
                state_key: Seq::empty(),
                content: JsonV::Object(Map::empty().insert("name"@, JsonV::Str(n@))),
            },
        ),
        req.topic matches Some(topic) ==> exists|c: JsonV| #[trigger]
            steps.contains(
                CreateStepV::SendState {
                    event_type: "m.room.topic"@,
                    state_key: Seq::empty(),
                    content: c,
                },
            ) && field(c, "topic"@) == Some(JsonV::Str(topic@)),
        0 <= i < req.invite@.len() ==> steps.contains(
            CreateStepV::Invite {
                user_id: req.invite@[i]@,
                remote: server_in(req.invite@[i]@) != Some(server),
                is_direct: req.is_direct,
            },
        ),
        req.public <==> steps.contains(CreateStepV::ListPublicly),
        steps.contains(CreateStepV::JoinCreator),
        steps.contains(CreateStepV::CopyPushRules),
{
    let (head, levels, alias) = lemma_plan_parts(req, creator, server, taken, steps);
    let initial = initial_steps(req.initial_state@).0;
    let front = seq![plain_state("m.room.power_levels"@, levels)] + preset_steps(preset_of(req));
    let closing = closing_steps(req, alias, server);
    assert forall|x: CreateStepV| closing.contains(x) || head.contains(x) implies steps.contains(
        x,
    ) by {
        lemma_joined_contains(front + initial, closing, x);
        lemma_joined_contains(head, front + initial + closing, x);
    }
    match req.room_alias_name {
        Some(local) => {
            assert(alias_text(local@, server) =~= seq!['#'] + local@ + seq![':'] + server);
            assert(head[1] == CreateStepV::ReserveAlias { alias: alias->0 });
            assert(head.contains(CreateStepV::ReserveAlias { alias: alias->0 }));
        },
        None => {},
    }
    assert(head[head.len() - 1] == CreateStepV::JoinCreator);
    assert(head.contains(CreateStepV::JoinCreator));
    let name = opt_step(
        match req.name {
            Some(n) => Some(plain_state("m.room.name"@, one_field("name"@, JsonV::Str(n@)))),
            None => None,
        },
    );
    let topic = opt_step(
        match req.topic {
            Some(t) => Some(plain_state("m.room.topic"@, topic_content(t@))),
            None => None,
        },
    );
    let canonical = opt_step(
        match alias {
            Some(a) => Some(
                plain_state("m.room.canonical_alias"@, one_field("alias"@, JsonV::Str(a))),
            ),
            None => None,
        },
    );
    let invites = invite_steps(texts(req.invite@), server, req.is_direct);
    let listed = opt_step(
        if req.public {
            Some(CreateStepV::ListPublicly)
        } else {
            None
        },
    );
    let copy = seq![CreateStepV::CopyPushRules];
    assert(closing == name + topic + canonical + invites + listed + copy);
    assert forall|x: CreateStepV| #[trigger] closing.contains(x) <==> name.contains(x)
        || topic.contains(x) || canonical.contains(x) || invites.contains(x) || listed.contains(x)
        || copy.contains(x) by {
        lemma_joined_contains(name, topic, x);
        lemma_joined_contains(name + topic, canonical, x);
        lemma_joined_contains(name + topic + canonical, invites, x);
        lemma_joined_contains(name + topic + canonical + invites, listed, x);
        lemma_joined_contains(name + topic + canonical + invites + listed, copy, x);
    }
    assert(copy[0] == CreateStepV::CopyPushRules);
    assert(closing.contains(CreateStepV::CopyPushRules));
    if req.name is Some {
        let x = plain_state("m.room.name"@, one_field("name"@, JsonV::Str(req.name->0@)));
        assert(name[0] == x);
        assert(closing.contains(x));
    }
    if req.topic is Some {
        let x = plain_state("m.room.topic"@, topic_content(req.topic->0@));
        assert(topic[0] == x);
        assert(closing.contains(x));
        reveal_strlit("topic");
        reveal_strlit("m.topic");
        assert("topic"@.len() == 5 && "m.topic"@.len() == 7);
        assert(field(topic_content(req.topic->0@), "topic"@) == Some(JsonV::Str(req.topic->0@)));
    }
    if alias is Some {
        let x = plain_state("m.room.canonical_alias"@, one_field("alias"@, JsonV::Str(alias->0)));
        assert(canonical[0] == x);
        assert(closing.contains(x));
    }
    if 0 <= i < req.invite@.len() {
        assert(invites[i] == invite_step(texts(req.invite@)[i], server, req.is_direct));
        assert(closing.contains(invites[i]));
    }
    if req.public {
        assert(listed[0] == CreateStepV::ListPublicly);
        assert(closing.contains(CreateStepV::ListPublicly));
    } else {
        let x = CreateStepV::ListPublicly;
        lemma_initial_steps(req.initial_state@);
        lemma_joined_contains(front, initial, x);
        lemma_joined_contains(front + initial, closing, x);
        lemma_joined_contains(head, front + initial + closing, x);
        if initial.contains(x) {
            let k = choose|k: int| 0 <= k < initial.len() && initial[k] == x;
            assert(initial[k] == initial_step(req.initial_state@[k]));
        }
        assert(!invites.contains(x)) by {
            if invites.contains(x) {
                let k = choose|k: int| 0 <= k < invites.len() && invites[k] == x;
                assert(invites[k] is Invite);
            }
        }
    }
}

/// A new room starts in order: it is made first, the creator joins before
/// anything is sent into it, its power levels are the first state, and
/// everybody is invited once all of its state is there.
#[verifier::spinoff_prover]
#[verifier::rlimit(30)]
pub proof fn law_new_rooms_start_in_order(
    req: CreateRoomRequest,
    creator: Seq<char>,
    server: Seq<char>,
    taken: bool,
    steps: Seq<CreateStepV>,
    i: int,
    j: int,
)
    requires
        create_plan(req, creator, server, taken) == Ok::<Seq<CreateStepV>, ApiErrorV>(steps),
        !some_step_fails(steps),
        0 <= i < steps.len(),
        0 <= j < steps.len(),
    ensures
        steps[0] is CreateRoom,
        i > 0 ==> !(steps[i] is CreateRoom),
        steps[i] is JoinCreator && (steps[j] is SendState || steps[j] is Invite) ==> i < j,
        steps[i] is SendState && (forall|k: int|
            0 <= k < i ==> !(#[trigger] steps[k] is SendState)) ==> steps[i]->SendState_event_type
            == "m.room.power_levels"@ && steps[i]->SendState_state_key.len() == 0,
        steps[i] is SendState && steps[j] is Invite ==> i < j,
        steps.last() is CopyPushRules,
{
    let (head, levels, alias) = lemma_plan_parts(req, creator, server, taken, steps);
    lemma_initial_steps(req.initial_state@);
    let initial = initial_steps(req.initial_state@).0;
    let front = seq![plain_state("m.room.power_levels"@, levels)] + preset_steps(preset_of(req));
    let name = opt_step(
        match req.name {
            Some(n) => Some(plain_state("m.room.name"@, one_field("name"@, JsonV::Str(n@)))),
            None => None,
        },
    );
    let topic = opt_step(
        match req.topic {
            Some(t) => Some(plain_state("m.room.topic"@, topic_content(t@))),
            None => None,
        },
    );
    let canonical = opt_step(
        match alias {
            Some(a) => Some(
                plain_state("m.room.canonical_alias"@, one_field("alias"@, JsonV::Str(a))),
            ),
            None => None,
        },
    );
    let invites = invite_steps(texts(req.invite@), server, req.is_direct);
    let listed = opt_step(
        if req.public {
            Some(CreateStepV::ListPublicly)
        } else {
            None
        },
    );
    let copy = seq![CreateStepV::CopyPushRules];
    let states = front + initial + (name + topic + canonical);
    let rest = invites + listed + copy;
    let given = name + topic + canonical;
    lemma_regroup(given, invites, listed);
    lemma_regroup(given, invites + listed, copy);
    lemma_regroup(front + initial, given, rest);
    lemma_regroup(head, states, rest);
    assert(steps == head + states + rest);
    assert forall|k: int| 0 <= k < states.len() implies #[trigger] states[k] is SendState by {
        if k < front.len() {
            assert(states[k] == front[k]);
        } else if k < front.len() + initial.len() {
            let e = k - front.len();
            assert(states[k] == initial[e]);
            assert(initial[e] == initial_step(req.initial_state@[e]));
        }
    }
    assert forall|k: int| 0 <= k < rest.len() implies #[trigger] rest[k] is Invite
        || rest[k] is ListPublicly || rest[k] is CopyPushRules by {}
    assert forall|k: int| 0 <= k < head.len() implies #[trigger] head[k] is CreateRoom
        || head[k] is ReserveAlias || head[k] is JoinCreator by {}
    assert(states[0] == plain_state("m.room.power_levels"@, levels));
    lemma_order(head, states, rest, i, j);
}

proof fn lemma_regroup(a: Seq<CreateStepV>, b: Seq<CreateStepV>, c: Seq<CreateStepV>)
    ensures
        a + (b + c) == (a + b) + c,
{
    assert(a + (b + c) =~= (a + b) + c);
}

proof fn lemma_order(
    head: Seq<CreateStepV>,
    states: Seq<CreateStepV>,
    rest: Seq<CreateStepV>,
    i: int,
    j: int,
)
    requires
        head.len() >= 2,
        head[0] is CreateRoom,
        forall|k: int|
            0 < k < head.len() ==> #[trigger] head[k] is ReserveAlias || head[k] is JoinCreator,
        states.len() > 0,
        forall|k: int| 0 <= k < states.len() ==> #[trigger] states[k] is SendState,
        rest.len() > 0,
        forall|k: int|
            0 <= k < rest.len() ==> #[trigger] rest[k] is Invite || rest[k] is ListPublicly
                || rest[k] is CopyPushRules,
        0 <= i < head.len() + states.len() + rest.len(),
        0 <= j < head.len() + states.len() + rest.len(),
    ensures
        ({
            let steps = head + states + rest;
            &&& steps[0] is CreateRoom
            &&& i > 0 ==> !(steps[i] is CreateRoom)
            &&& steps[i] is JoinCreator && (steps[j] is SendState || steps[j] is Invite) ==> i < j
            &&& steps[i] is SendState && (forall|k: int|
                0 <= k < i ==> !(#[trigger] steps[k] is SendState)) ==> steps[i] == states[0]
            &&& steps[i] is SendState && steps[j] is Invite ==> i < j
            &&& steps.last() == rest.last()
        }),
{
    let steps = head + states + rest;
    let h = head.len() as int;
    let m = h + states.len();
    if i < h {
        assert(steps[i] == head[i]);
    } else if i < m {
        assert(steps[i] == states[i - h]);
    } else {
        assert(steps[i] == rest[i - m]);
    }
    if j < h {
        assert(steps[j] == head[j]);
    } else if j < m {
        assert(steps[j] == states[j - h]);
    } else {
        assert(steps[j] == rest[j - m]);
    }
    assert(steps[h] == states[0]);
    assert(steps[0] == head[0]);
}

/// Nothing is sent into a new room but what it starts with and what was asked
/// for: power levels, join rule, history visibility, guest access, the name,
/// topic and alias of the request, and the entries of its `initial_state`; and
/// nobody is invited who was not to be.
#[verifier::spinoff_prover]
#[verifier::rlimit(30)]
pub proof fn law_nothing_else_is_sent(
    req: CreateRoomRequest,
    creator: Seq<char>,
    server: Seq<char>,
    taken: bool,
    steps: Seq<CreateStepV>,
    i: int,
)
    requires
        create_plan(req, creator, server, taken) == Ok::<Seq<CreateStepV>, ApiErrorV>(steps),
        !some_step_fails(steps),
        0 <= i < steps.len(),
    ensures
        steps[i] matches CreateStepV::Invite { user_id, .. } ==> texts(req.invite@).contains(
            user_id,
        ),
        steps[i] matches CreateStepV::SendState { event_type, state_key, content } ==> {
            ||| event_type == "m.room.power_levels"@
            ||| event_type == "m.room.join_rules"@
            ||| event_type == "m.room.history_visibility"@
            ||| event_type == "m.room.guest_access"@
            ||| event_type == "m.room.name"@ && req.name is Some
            ||| event_type == "m.room.topic"@ && req.topic is Some
            ||| event_type == "m.room.canonical_alias"@ && req.room_alias_name is Some
            ||| exists|k: int|
                #![trigger req.initial_state@[k]]
                0 <= k < req.initial_state@.len() && req.initial_state@[k] is Ok && field(
                    req.initial_state@[k]->Ok_0@,
                    "type"@,
                ) == Some(JsonV::Str(event_type)) && (field(
                    req.initial_state@[k]->Ok_0@,
                    "content"@,
                ) matches Some(c) ==> content == c)
        },
{
    let (head, levels, alias) = lemma_plan_parts(req, creator, server, taken, steps);
    lemma_initial_steps(req.initial_state@);
    let initial = initial_steps(req.initial_state@).0;
    let front = seq![plain_state("m.room.power_levels"@, levels)] + preset_steps(preset_of(req));
    let closing = closing_steps(req, alias, server);
    let a = head.len() as int;
    let b = a + front.len();
    let c = b + initial.len();
    if i < a {
        assert(steps[i] == head[i]);
    } else if i < b {
        assert(steps[i] == front[i - a]);
    } else if i < c {
        assert(steps[i] == initial[i - b]);
        assert(initial[i - b] == initial_step(req.initial_state@[i - b]));
    } else {
        lemma_closing_sends(req, alias, server, i - c);
        assert(steps[i] == closing[i - c]);
    }
}

#[verifier::spinoff_prover]
#[verifier::rlimit(30)]
proof fn lemma_closing_sends(
    req: CreateRoomRequest,
    alias: Option<Seq<char>>,
    server: Seq<char>,
    k: int,
)
    requires
        0 <= k < closing_steps(req, alias, server).len(),
    ensures
        ({
            let x = closing_steps(req, alias, server)[k];
            &&& x matches CreateStepV::Invite { user_id, .. } ==> texts(req.invite@).contains(
                user_id,
            )
            &&& x matches CreateStepV::SendState { event_type, .. } ==> {
                ||| event_type == "m.room.name"@ && req.name is Some
                ||| event_type == "m.room.topic"@ && req.topic is Some
                ||| event_type == "m.room.canonical_alias"@ && alias is Some
            }
        }),
{
    let closing = closing_steps(req, alias, server);
    let name = opt_step(
        match req.name {
            Some(n) => Some(plain_state("m.room.name"@, one_field("name"@, JsonV::Str(n@)))),
            None => None,
        },
    );
    let topic = opt_step(
        match req.topic {
            Some(t) => Some(plain_state("m.room.topic"@, topic_content(t@))),
            None => None,
        },
    );
    let canonical = opt_step(
        match alias {
            Some(a) => Some(
                plain_state("m.room.canonical_alias"@, one_field("alias"@, JsonV::Str(a))),
            ),
            None => None,
        },
    );
    let invites = invite_steps(texts(req.invite@), server, req.is_direct);
    let n1 = name.len() as int;
    let n2 = n1 + topic.len();
    let n3 = n2 + canonical.len();
    if k < n1 {
        assert(closing[k] == name[k]);
    } else if k < n2 {
        assert(closing[k] == topic[k - n1]);
    } else if k < n3 {
        assert(closing[k] == canonical[k - n2]);
    } else if k < n3 + invites.len() {
        assert(closing[k] == invites[k - n3]);
        assert(texts(req.invite@)[k - n3] == req.invite@[k - n3]@);
        assert(invites[k - n3] == invite_step(texts(req.invite@)[k - n3], server, req.is_direct));
    }
}

/// A preset opens a room or keeps it: a public chat is joined by anyone, any
/// other room by invite; history is shared with members; and guests may join
/// all but public chats.
pub proof fn law_presets_open_or_keep(
    req: CreateRoomRequest,
    creator: Seq<char>,
    server: Seq<char>,
    taken: bool,
    steps: Seq<CreateStepV>,
)
    requires
        create_plan(req, creator, server, taken) == Ok::<Seq<CreateStepV>, ApiErrorV>(steps),
        !some_step_fails(steps),
    ensures
        ({
            let open = req.preset == Some(RoomPreset::PublicChat) || (req.preset is None
                && req.public);
            &&& steps.contains(
                CreateStepV::SendState {
                    event_type: "m.room.join_rules"@,
                    state_key: Seq::empty(),
                    content: JsonV::Object(
                        Map::empty().insert(
                            "join_rule"@,
                            JsonV::Str(
                                if open {
                                    "public"@
                                } else {
                                    "invite"@
                                },
                            ),
                        ),
                    ),
                },
            )
            &&& steps.contains(
                CreateStepV::SendState {
                    event_type: "m.room.history_visibility"@,
                    state_key: Seq::empty(),
                    content: JsonV::Object(
                        Map::empty().insert("history_visibility"@, JsonV::Str("shared"@)),
                    ),
                },
            )
            &&& !open ==> steps.contains(
                CreateStepV::SendState {
                    event_type: "m.room.guest_access"@,
                    state_key: Seq::empty(),
                    content: JsonV::Object(
                        Map::empty().insert("guest_access"@, JsonV::Str("can_join"@)),
                    ),
                },
            )
        }),
{
    let (head, levels, alias) = lemma_plan_parts(req, creator, server, taken, steps);
    let initial = initial_steps(req.initial_state@).0;
    let preset = preset_steps(preset_of(req));
    let first = seq![plain_state("m.room.power_levels"@, levels)];
    let closing = closing_steps(req, alias, server);
    assert forall|x: CreateStepV| #[trigger] preset.contains(x) implies steps.contains(x) by {
        lemma_joined_contains(first, preset, x);
        lemma_joined_contains(first + preset, initial, x);
        lemma_joined_contains(first + preset + initial, closing, x);
        lemma_joined_contains(head, first + preset + initial + closing, x);
    }
    assert(preset.contains(preset[0]));
    assert(preset.contains(preset[1]));
    if preset_of(req) != RoomPreset::PublicChat {
        assert(preset.contains(preset[2]));
    }
}

/// A room's creator can run it: where creators are not privileged and nothing
/// overrides it, they have level 100, nobody else has a level of their own but
/// the invited users of a trusted private chat, who have 100 too, and
/// moderators at 50 ban, kick, redact and send state.
pub proof fn law_creators_run_their_rooms(
    req: CreateRoomRequest,
    creator: Seq<char>,
    more: Seq<Seq<char>>,
    u: Seq<char>,
)
    requires
        req.power_level_content_override is None,
        !is_privileged(req.version),
    ensures
        power_levels(req, creator, more) matches Ok(levels) && {
            &&& field2(levels, "users"@, creator) == Some(JsonV::Int(100))
            &&& field2(levels, "users"@, u) == (if u == creator || (req.preset == Some(
                RoomPreset::TrustedPrivateChat,
            ) && texts(req.invite@).contains(u)) {
                Some(JsonV::Int(100))
            } else {
                None
            })
            &&& field(levels, "users_default"@) == Some(JsonV::Int(0))
            &&& field(levels, "events_default"@) == Some(JsonV::Int(0))
            &&& field(levels, "state_default"@) == Some(JsonV::Int(50))
            &&& field(levels, "ban"@) == Some(JsonV::Int(50))
            &&& field(levels, "kick"@) == Some(JsonV::Int(50))
            &&& field(levels, "redact"@) == Some(JsonV::Int(50))
            &&& field(levels, "invite"@) == Some(
                JsonV::Int(
                    if req.preset == Some(RoomPreset::PrivateChat) || req.preset == Some(
                        RoomPreset::TrustedPrivateChat,
                    ) || (req.preset is None && !req.public) {
                        0
                    } else {
                        50
                    },
                ),
            )
        },
{
    lemma_level_names();
    lemma_all_at_100(no_fields().insert(creator, JsonV::Int(100)), texts(req.invite@), u);
    lemma_all_at_100(no_fields().insert(creator, JsonV::Int(100)), texts(req.invite@), creator);
}

proof fn lemma_all_at_100(users: Map<Seq<char>, JsonV>, names: Seq<Seq<char>>, u: Seq<char>)
    ensures
        field(JsonV::Object(all_at_100(users, names)), u) == (if names.contains(u) {
            Some(JsonV::Int(100))
        } else {
            field(JsonV::Object(users), u)
        }),
    decreases names.len(),
{
    if names.len() > 0 {
        let init = names.drop_last();
        lemma_all_at_100(users, init, u);
        if names.contains(u) && names.last() != u {
            let i = choose|i: int| 0 <= i < names.len() && names[i] == u;
            assert(init[i] == u);
        }
        if init.contains(u) {
            let i = choose|i: int| 0 <= i < init.len() && init[i] == u;
            assert(names[i] == u);
        }
        if names.last() == u {
            assert(names[names.len() - 1] == u);
        }
    }
}

proof fn lemma_level_names()
    ensures
        "ban"@ != "events"@,
        "ban"@ != "events_default"@,
        "ban"@ != "invite"@,
        "ban"@ != "kick"@,
        "ban"@ != "notifications"@,
        "ban"@ != "redact"@,
        "ban"@ != "state_default"@,
        "ban"@ != "users"@,
        "ban"@ != "users_default"@,
        "events"@ != "events_default"@,
        "events"@ != "invite"@,
        "events"@ != "kick"@,
        "events"@ != "notifications"@,
        "events"@ != "redact"@,
        "events"@ != "state_default"@,
        "events"@ != "users"@,
        "events"@ != "users_default"@,
        "events_default"@ != "invite"@,
        "events_default"@ != "kick"@,
        "events_default"@ != "notifications"@,
        "events_default"@ != "redact"@,
        "events_default"@ != "state_default"@,
        "events_default"@ != "users"@,
        "events_default"@ != "users_default"@,
        "invite"@ != "kick"@,
        "invite"@ != "notifications"@,
        "invite"@ != "redact"@,
        "invite"@ != "state_default"@,
        "invite"@ != "users"@,
        "invite"@ != "users_default"@,
        "kick"@ != "notifications"@,
        "kick"@ != "redact"@,
        "kick"@ != "state_default"@,
        "kick"@ != "users"@,
        "kick"@ != "users_default"@,
        "notifications"@ != "redact"@,
        "notifications"@ != "state_default"@,
        "notifications"@ != "users"@,
        "notifications"@ != "users_default"@,
        "redact"@ != "state_default"@,
        "redact"@ != "users"@,
        "redact"@ != "users_default"@,
        "state_default"@ != "users"@,
        "state_default"@ != "users_default"@,
        "users"@ != "users_default"@,
{
    reveal_strlit("ban");
    reveal_strlit("events");
    reveal_strlit("events_default");
    reveal_strlit("invite");
    reveal_strlit("kick");
    reveal_strlit("notifications");
    reveal_strlit("redact");
    reveal_strlit("state_default");
    reveal_strlit("users");
    reveal_strlit("users_default");
    assert("ban"@.len() == 3 && "events"@.len() == 6 && "events_default"@.len() == 14
        && "invite"@.len() == 6 && "kick"@.len() == 4 && "notifications"@.len() == 13
        && "redact"@.len() == 6 && "state_default"@.len() == 13 && "users"@.len() == 5
        && "users_default"@.len() == 13);
    assert("ban"@[0] == 'b' && "events"@[0] == 'e' && "events_default"@[0] == 'e'
        && "invite"@[0] == 'i' && "kick"@[0] == 'k' && "notifications"@[0] == 'n'
        && "redact"@[0] == 'r' && "state_default"@[0] == 's' && "users"@[0] == 'u'
        && "users_default"@[0] == 'u');
}

/// An override of the power levels holds: where creators are not privileged,
/// each level that it sets is set so, and each that it does not mention is as
/// it would have been; users and events that it lists come to those that are
/// there.
pub proof fn law_level_overrides_hold(
    req: CreateRoomRequest,
    plain: CreateRoomRequest,
    creator: Seq<char>,
    more: Seq<Seq<char>>,
    key: Seq<char>,
)
    requires
        !is_privileged(req.version),
        req.power_level_content_override matches Some(Ok(o)) && o@ is Object,
        plain == (CreateRoomRequest { power_level_content_override: None, ..req }),
    ensures
        power_levels(req, creator, more) matches Ok(levels) && power_levels(plain, creator, more)
            matches Ok(base) && ({
            let o = req.power_level_content_override->0->Ok_0@;
            match (field(o, key), field(base, key)) {
                (None, b) => field(levels, key) == b,
                (Some(JsonV::Object(p)), Some(JsonV::Object(b))) => forall|u: Seq<char>| #[trigger]
                    field2(levels, key, u) == field(
                        merged(JsonV::Object(b), JsonV::Object(p)),
                        u,
                    ),
                (Some(v), _) => field(levels, key) == Some(v),
            }
        }),
{
    let o = req.power_level_content_override->0->Ok_0@;
    let base = default_levels(req, creator);
    assert(default_levels(plain, creator) == base);
    let m = merged(base, o);
    assert(base is Object);
}

/// The content of the create event is the client's: every field that it gives
/// but the list of creators is there as it was given. Where creators are
/// privileged and the chat is a trusted private one, the invited users are
/// among the creators, behind those that the client lists.
pub proof fn law_creation_content_is_kept(req: CreateRoomRequest, k: Seq<char>, i: int)
    requires
        req.creation_content matches Some(Ok(_)),
    ensures
        creation_content(req) matches Ok(c) ==> {
            let given = fields_view(req.creation_content->0->Ok_0@);
            &&& k != "additional_creators"@ ==> field(JsonV::Object(c), k) == field(
                JsonV::Object(given),
                k,
            )
            &&& !is_privileged(req.version) ==> c == given
            &&& is_privileged(req.version) && req.preset == Some(RoomPreset::TrustedPrivateChat)
                && 0 <= i < req.invite@.len() ==> additional_creators(c).contains(
                req.invite@[i]@,
            )
            &&& is_privileged(req.version) && req.preset != Some(RoomPreset::TrustedPrivateChat)
                ==> c == given
        },
        !is_privileged(req.version) ==> creation_content(req) is Ok,
{
    if is_privileged(req.version) && req.preset == Some(RoomPreset::TrustedPrivateChat) && 0 <= i
        < req.invite@.len() && creation_content(req) is Ok {
        let given = fields_view(req.creation_content->0->Ok_0@);
        let listed = match field(JsonV::Object(given), "additional_creators"@) {
            Some(JsonV::Array(items)) => items,
            _ => Seq::empty(),
        };
        let invite = texts(req.invite@);
        let have = crate::json::strings_among(listed);
        let more = new_names(have, invite);
        lemma_new_names(have, invite, i);
        lemma_strings_join(listed, more);
        let all = crate::json::strings_among(listed + more);
        let u = invite[i];
        if have.contains(u) {
            let k = choose|k: int| 0 <= k < have.len() && have[k] == u;
            assert(all[k] == u);
            assert(listed.len() > 0) by {
                reveal_with_fuel(crate::json::strings_among, 1);
            }
        } else {
            let k = choose|k: int|
                0 <= k < crate::json::strings_among(more).len() && crate::json::strings_among(
                    more,
                )[k] == u;
            assert(all[have.len() + k] == u);
            assert(more.len() > 0);
        }
    }
}

proof fn lemma_strings_join(a: Seq<JsonV>, b: Seq<JsonV>)
    ensures
        crate::json::strings_among(a + b) == crate::json::strings_among(a)
            + crate::json::strings_among(b),
    decreases b.len(),
{
    if b.len() == 0 {
        assert(a + b =~= a);
    } else {
        lemma_strings_join(a, b.drop_last());
        assert((a + b).drop_last() =~= a + b.drop_last());
        assert((a + b).last() == b.last());
    }
    assert(crate::json::strings_among(a + b) =~= crate::json::strings_among(a)
        + crate::json::strings_among(b));
}

proof fn lemma_new_names(have: Seq<Seq<char>>, invite: Seq<Seq<char>>, i: int)
    requires
        0 <= i < invite.len(),
    ensures
        have.contains(invite[i]) || crate::json::strings_among(new_names(have, invite)).contains(
            invite[i],
        ),
    decreases invite.len(),
{
    let init = invite.drop_last();
    let a = new_names(have, init);
    let all = new_names(have, invite);
    if !have.contains(invite[i]) {
        if i == invite.len() - 1 {
            assert(all.drop_last() =~= a);
            let s = crate::json::strings_among(all);
            assert(s.last() == invite[i]);
            assert(s[s.len() - 1] == invite[i]);
        } else {
            lemma_new_names(have, init, i);
            assert(init[i] == invite[i]);
            let k = choose|k: int|
                0 <= k < crate::json::strings_among(a).len() && crate::json::strings_among(a)[k]
                    == invite[i];
            if !have.contains(invite.last()) {
                assert(all.drop_last() =~= a);
                assert(crate::json::strings_among(all)[k] == invite[i]);
            }
        }
    }
}

/// A request is refused before anything is done exactly where its version is
/// not supported, its alias is no alias or taken, or its creation content
/// cannot be used.
pub proof fn law_refused_requests_do_nothing(
    req: CreateRoomRequest,
    creator: Seq<char>,
    server: Seq<char>,
    taken: bool,
)
    ensures
        create_plan(req, creator, server, taken) is Err <==> {
            ||| req.version is Unsupported
            ||| req.room_alias_name matches Some(local) && (taken || !is_room_alias(
                seq!['#'] + local@ + seq![':'] + server,
            ))
            ||| req.creation_content matches Some(Err(_))
            ||| is_privileged(req.version) && (req.creation_content matches Some(Ok(m))
                && fields_view(m@).dom().contains("additional_creators"@) && !is_user_id_array(
                fields_view(m@)["additional_creators"@],
            ))
        },
        create_plan(req, creator, server, taken) matches Err(e) ==> e.status == 400,
{
    match req.room_alias_name {
        Some(local) => {
            assert(alias_text(local@, server) =~= seq!['#'] + local@ + seq![':'] + server);
        },
        None => {},
    }
}

// -- what upgrading a room is for ---------------------------------------------

/// Every kind of state that a replacement takes over is taken over: for each
/// that the old room has there is an event of that kind with an empty state
/// key; of all kinds but power levels its content is the old room's.
pub proof fn law_upgrades_carry_the_state_over(
    facts: UpgradeFacts,
    body: Map<Seq<char>, JsonV>,
    upgrader: Seq<char>,
    room_id: Seq<char>,
    steps: Seq<CreateStepV>,
    k: int,
)
    requires
        upgrade_plan(facts, body, upgrader, room_id) == Ok::<Seq<CreateStepV>, ApiErrorV>(steps),
        facts.old_state@.len() == transferable().len(),
        0 <= k < transferable().len(),
        facts.old_state@[k] is Some,
    ensures
        k > 0 ==> steps.contains(
            CreateStepV::SendState {
                event_type: transferable()[k],
                state_key: Seq::empty(),
                content: facts.old_state@[k]->0@,
            },
        ),
        exists|c: JsonV| #[trigger]
            steps.contains(
                CreateStepV::SendState {
                    event_type: transferable()[k],
                    state_key: Seq::empty(),
                    content: c,
                },
            ),
{
    let creators = upgrade_creators(
        body,
        carried_content(crate::routes::rooms::opt_json(facts.old_creation)),
    )->Ok_0;
    let special = is_privileged(facts.version);
    let n = transferable().len() as int;
    let moved = transfer_steps(facts.old_state@, special, upgrader, creators, n);
    lemma_transfer_steps(facts.old_state@, special, upgrader, creators, n, k);
    let c = if k == 0 {
        upgraded_levels(facts.old_state@[k]->0@, special, upgrader, creators)
    } else {
        facts.old_state@[k]->0@
    };
    let x = plain_state(transferable()[k], c);
    let head = seq![
        CreateStepV::CreateRoom { fields: replacement_content(facts, creators, room_id) },
        CreateStepV::JoinCreator,
    ];
    let end = if is_room_id(room_id) {
        seq![CreateStepV::Tombstone, CreateStepV::CopyPushRules]
    } else {
        seq![CreateStepV::Fail(invalid_param("room_id: "@ + room_id_fault(room_id)))]
    };
    lemma_joined_contains(head, moved, x);
    lemma_joined_contains(head + moved, end, x);
}

proof fn lemma_transfer_steps(
    state: Seq<Option<Json>>,
    special: bool,
    upgrader: Seq<char>,
    creators: Seq<Seq<char>>,
    n: int,
    k: int,
)
    requires
        0 <= k < n <= state.len(),
        state[k] is Some,
    ensures
        transfer_steps(state, special, upgrader, creators, n).contains(
            plain_state(
                transferable()[k],
                if k == 0 {
                    upgraded_levels(state[k]->0@, special, upgrader, creators)
                } else {
                    state[k]->0@
                },
            ),
        ),
    decreases n,
{
    let init = transfer_steps(state, special, upgrader, creators, n - 1);
    let all = transfer_steps(state, special, upgrader, creators, n);
    let x = plain_state(
        transferable()[k],
        if k == 0 {
            upgraded_levels(state[k]->0@, special, upgrader, creators)
        } else {
            state[k]->0@
        },
    );
    if k == n - 1 {
        assert(all[init.len() as int] == x);
    } else {
        lemma_transfer_steps(state, special, upgrader, creators, n - 1, k);
        let i = choose|i: int| 0 <= i < init.len() && init[i] == x;
        assert(all[i] == x);
    }
}

/// The kinds that a replacement takes over are what makes a room what it is,
/// power levels first.
pub proof fn law_what_makes_a_room_is_taken_over()
    ensures
        transferable()[0] == "m.room.power_levels"@,
        transferable().contains("m.room.join_rules"@),
        transferable().contains("m.room.history_visibility"@),
        transferable().contains("m.room.guest_access"@),
        transferable().contains("m.room.name"@),
        transferable().contains("m.room.topic"@),
        transferable().contains("m.room.avatar"@),
        transferable().contains("m.room.encryption"@),
        transferable().contains("m.room.server_acl"@),
        transferable().len() == 9,
{
    let t = transferable();
    assert(t[1] == "m.room.join_rules"@ && t[2] == "m.room.history_visibility"@ && t[3]
        == "m.room.guest_access"@ && t[4] == "m.room.name"@ && t[5] == "m.room.topic"@ && t[6]
        == "m.room.avatar"@ && t[7] == "m.room.encryption"@ && t[8] == "m.room.server_acl"@);
}

/// An upgrade makes the replacement, joins it, carries state over, and
/// tombstones the old room last; it sends nothing into the replacement that the
/// old room did not have, and everything that it sends is of a kind that is
/// taken over.
pub proof fn law_upgrades_replace_the_room(
    facts: UpgradeFacts,
    body: Map<Seq<char>, JsonV>,
    upgrader: Seq<char>,
    room_id: Seq<char>,
    steps: Seq<CreateStepV>,
    i: int,
)
    requires
        upgrade_plan(facts, body, upgrader, room_id) == Ok::<Seq<CreateStepV>, ApiErrorV>(steps),
        facts.old_state@.len() == transferable().len(),
        0 <= i < steps.len(),
    ensures
        steps[0] is CreateRoom,
        steps[1] is JoinCreator,
        is_room_id(room_id) ==> steps[steps.len() - 2] is Tombstone && steps.last() is CopyPushRules
            && !some_step_fails(steps),
        !is_room_id(room_id) ==> (steps.last() matches CreateStepV::Fail(e) && e.status == 400),
        steps[i] is SendState ==> exists|k: int|
            #![trigger transferable()[k]]
            0 <= k < transferable().len() && facts.old_state@[k] is Some
                && steps[i]->SendState_event_type == transferable()[k]
                && steps[i]->SendState_state_key.len() == 0,
        1 < i && !(steps[i] is SendState) ==> steps[i] is Tombstone || steps[i] is CopyPushRules
            || steps[i] is Fail,
        steps[i] is SendState ==> i > 1 && (is_room_id(room_id) ==> i < steps.len() - 2),
{
    let creators = upgrade_creators(
        body,
        carried_content(crate::routes::rooms::opt_json(facts.old_creation)),
    )->Ok_0;
    let special = is_privileged(facts.version);
    let n = transferable().len() as int;
    let moved = transfer_steps(facts.old_state@, special, upgrader, creators, n);
    let head = seq![
        CreateStepV::CreateRoom { fields: replacement_content(facts, creators, room_id) },
        CreateStepV::JoinCreator,
    ];
    let end = if is_room_id(room_id) {
        seq![CreateStepV::Tombstone, CreateStepV::CopyPushRules]
    } else {
        seq![CreateStepV::Fail(invalid_param("room_id: "@ + room_id_fault(room_id)))]
    };
    assert(steps == head + moved + end);
    assert forall|j: int| 0 <= j < moved.len() implies (#[trigger] moved[j]) is SendState by {
        lemma_moved_is_state(facts.old_state@, special, upgrader, creators, n, j);
    }
    assert forall|j: int| 0 <= j < steps.len() && is_room_id(room_id) implies !((
    #[trigger] steps[j]) is Fail) by {
        if j < 2 {
            assert(steps[j] == head[j]);
        } else if j < 2 + moved.len() {
            assert(steps[j] == moved[j - 2]);
        } else {
            assert(steps[j] == end[j - 2 - moved.len()]);
        }
    }
    if i < 2 {
        assert(steps[i] == head[i]);
    } else if i < 2 + moved.len() {
        assert(steps[i] == moved[i - 2]);
        lemma_moved_is_state(facts.old_state@, special, upgrader, creators, n, i - 2);
    } else {
        assert(steps[i] == end[i - 2 - moved.len()]);
    }
}

proof fn lemma_moved_is_state(
    state: Seq<Option<Json>>,
    special: bool,
    upgrader: Seq<char>,
    creators: Seq<Seq<char>>,
    n: int,
    j: int,
)
    requires
        0 <= n <= state.len(),
        0 <= j < transfer_steps(state, special, upgrader, creators, n).len(),
    ensures
        transfer_steps(state, special, upgrader, creators, n)[j] is SendState,
        exists|k: int|
            #![trigger transferable()[k]]
            0 <= k < n && state[k] is Some && transfer_steps(
                state,
                special,
                upgrader,
                creators,
                n,
            )[j]->SendState_event_type == transferable()[k],
        transfer_steps(state, special, upgrader, creators, n)[j]->SendState_state_key.len() == 0,
    decreases n,
{
    if n > 0 {
        let init = transfer_steps(state, special, upgrader, creators, n - 1);
        if j < init.len() {
            lemma_moved_is_state(state, special, upgrader, creators, n - 1, j);
            let k = choose|k: int|
                #![trigger transferable()[k]]
                0 <= k < n - 1 && state[k] is Some && init[j]->SendState_event_type
                    == transferable()[k];
            assert(transferable()[k] == init[j]->SendState_event_type);
        } else {
            assert(transfer_steps(state, special, upgrader, creators, n)[j]->SendState_event_type
                == transferable()[n - 1]);
        }
    }
}

/// A replacement points back at the room that it replaces, and is made as that
/// was: its create event names the old room, and the old room's last event
/// where creators are not privileged, and keeps every field that the server
/// does not manage.
pub proof fn law_replacements_point_back(
    facts: UpgradeFacts,
    body: Map<Seq<char>, JsonV>,
    upgrader: Seq<char>,
    room_id: Seq<char>,
    steps: Seq<CreateStepV>,
    k: Seq<char>,
)
    requires
        upgrade_plan(facts, body, upgrader, room_id) == Ok::<Seq<CreateStepV>, ApiErrorV>(steps),
    ensures
        steps[0] matches CreateStepV::CreateRoom { fields } && {
            let made = JsonV::Object(fields);
            &&& field2(made, "predecessor"@, "room_id"@) == Some(JsonV::Str(room_id))
            &&& field2(made, "predecessor"@, "event_id"@) == (if is_privileged(facts.version)
                || facts.last_event is None {
                None
            } else {
                Some(JsonV::Str(facts.last_event->0@))
            })
            &&& field(made, "room_version"@) is None
            &&& field(made, "creator"@) is None
            &&& k != "room_version"@ && k != "creator"@ && k != "predecessor"@ && k
                != "additional_creators"@ ==> field(made, k) == (match facts.old_creation {
                Some(old) => field(old@, k),
                None => None,
            })
            &&& !is_privileged(facts.version) ==> field(made, "additional_creators"@) is None
        },
{
    reveal_strlit("predecessor");
    reveal_strlit("room_version");
    reveal_strlit("creator");
    reveal_strlit("additional_creators");
    reveal_strlit("room_id");
    reveal_strlit("event_id");
    assert("predecessor"@.len() == 11 && "room_version"@.len() == 12 && "creator"@.len() == 7
        && "additional_creators"@.len() == 19 && "room_id"@.len() == 7 && "event_id"@.len() == 8);
}

/// An upgrade is refused, and nothing is done, exactly where the version is not
/// supported, the upgrader may not tombstone the room, or the creators that
/// they name are no list of user IDs.
pub proof fn law_refused_upgrades_do_nothing(
    facts: UpgradeFacts,
    body: Map<Seq<char>, JsonV>,
    upgrader: Seq<char>,
    room_id: Seq<char>,
)
    ensures
        upgrade_plan(facts, body, upgrader, room_id) is Err <==> {
            ||| facts.version is Unsupported
            ||| !facts.may_tombstone
            ||| body.dom().contains("additional_creators"@) && !is_user_id_array(
                body["additional_creators"@],
            )
        },
        !(facts.version is Unsupported) && !facts.may_tombstone ==> (upgrade_plan(
            facts,
            body,
            upgrader,
            room_id,
        ) matches Err(e) && e.status == 403),
{
}

/// An upgrade changes nobody's power but the upgrader's and the creators':
/// every other user, and every other level, is as in the old room. An upgrader
/// whose level is at least 100 keeps that level.
pub proof fn law_upgrades_change_no_other_level(
    levels: JsonV,
    special: bool,
    upgrader: Seq<char>,
    creators: Seq<Seq<char>>,
    key: Seq<char>,
    u: Seq<char>,
)
    requires
        levels is Object,
    ensures
        key != "users"@ ==> field(upgraded_levels(levels, special, upgrader, creators), key)
            == field(levels, key),
        u != upgrader && !creators.contains(u) ==> field2(
            upgraded_levels(levels, special, upgrader, creators),
            "users"@,
            u,
        ) == field2(levels, "users"@, u),
        !special && u != upgrader ==> field2(
            upgraded_levels(levels, special, upgrader, creators),
            "users"@,
            u,
        ) == field2(levels, "users"@, u),
        !special && (as_int64(field2(levels, "users"@, upgrader)) matches Some(l) && l >= 100)
            ==> field2(upgraded_levels(levels, special, upgrader, creators), "users"@, upgrader)
            == field2(levels, "users"@, upgrader),
{
    let users = match field(levels, "users"@) {
        Some(x) => x,
        None => JsonV::Object(no_fields()),
    };
    let all = seq![upgrader] + creators;
    match users {
        JsonV::Object(m) => {
            lemma_without(m, all);
            if u != upgrader && !creators.contains(u) {
                assert(!all.contains(u)) by {
                    if all.contains(u) {
                        let i = choose|i: int| 0 <= i < all.len() && all[i] == u;
                        if i > 0 {
                            assert(creators[i - 1] == u);
                        }
                    }
                }
            }
        },
        _ => {},
    }
}

/// An upgrade names the version that it is to.
pub proof fn law_upgrades_name_a_version(
    body: &Vec<(String, Json)>,
    r: Result<String, ApiError>,
)
    requires
        call_ensures(upgrade_version, (body,), r),
    ensures
        r matches Ok(v) ==> field(JsonV::Object(fields_view(body@)), "new_version"@)
            == Some(JsonV::Str(v@)),
        r is Err <==> !(field(JsonV::Object(fields_view(body@)),
            "new_version"@) matches Some(JsonV::Str(_))),
        r matches Err(e) ==> e@.status == 400,
{
}

/// A tombstone names the room that replaces the old one.
pub proof fn law_tombstones_point_to_the_replacement(
    new_room_id: &str,
    r: Json,
)
    requires
        call_ensures(tombstone_content, (new_room_id,), r),
    ensures
        field(r@, "replacement_room"@) == Some(JsonV::Str(new_room_id@)),
{
    reveal_strlit("body");
    reveal_strlit("replacement_room");
    assert("body"@.len() == 4 && "replacement_room"@.len() == 16);
}

/// Creating a room sends every entry of `initial_state`: where no step fails,
/// one of the steps is to send an event of the entry's type, with its state key
/// and its content.
pub proof fn law_created_rooms_get_their_state(
    req: &CreateRoomRequest,
    creator: &str,
    server_name: &str,
    taken: bool,
    i: int,
    ev: Json,
    r: Result<Vec<CreateStep>, ApiError>,
)
    requires
        call_ensures(create_room, (req, creator, server_name, taken), r),
        0 <= i < req.initial_state@.len() && req.initial_state@[i] == Ok::<Json, String>(ev),
    ensures
        r matches Ok(v) ==> (forall|k: int| 0 <= k < v@.len() ==> !(#[trigger] v@[k] is Fail)) ==> (
        exists|k: int|
            0 <= k < v@.len() && (#[trigger] v@[k] is SendState) && field(ev@, "type"@) == Some(
                JsonV::Str(v@[k]->SendState_event_type@),
            ) && (field(ev@, "content"@) is Some ==> field(ev@, "content"@) == Some(
                v@[k]->SendState_content@,
            )) && (field(ev@, "state_key"@) matches Some(JsonV::Str(key))
                ==> v@[k]->SendState_state_key@
                == key)),
{
    match r {
        Ok(v) => {
            if forall|k: int| 0 <= k < v@.len() ==> !(#[trigger] v@[k] is Fail) {
                let steps = step_views(v@);
                assert forall|k: int| 0 <= k < steps.len() implies !(#[trigger] steps[k] is Fail) by {
                    assert(steps[k] == v@[k]@);
                }
                law_initial_state_is_sent(*req, creator@, server_name@, taken, steps, i);
                let x = initial_step(req.initial_state@[i]);
                assert(steps.contains(x));
                let k = choose|k: int| 0 <= k < steps.len() && steps[k] == x;
                assert(steps[k] == v@[k]@);
                assert(v@[k] is SendState);
            }
        },
        Err(_) => {},
    }
}

/// Upgrading a room sends into the replacement every kind of state that is
/// taken over and that the old room has, with an empty state key; what it says
/// is the old room's, but for the power levels, which are of the upgrader's
/// making.
pub proof fn law_upgraded_rooms_keep_their_state(
    facts: &UpgradeFacts,
    body: &Vec<(String, Json)>,
    upgrader: &str,
    room_id: &str,
    k: int,
    r: Result<Vec<CreateStep>, ApiError>,
)
    requires
        call_ensures(upgrade_room, (facts, body, upgrader, room_id), r),
        facts.old_state@.len() == 9 && 0 <= k < 9 && facts.old_state@[k] is Some,
    ensures
        r matches Ok(v) ==> exists|j: int|
            0 <= j < v@.len() && (#[trigger] v@[j] is SendState) && v@[j]->SendState_event_type@
                == transferable()[k] && v@[j]->SendState_state_key@.len() == 0 && (k > 0
                ==> v@[j]->SendState_content@ == facts.old_state@[k]->0@),
{
    match r {
        Ok(v) => {
            let steps = step_views(v@);
            law_upgrades_carry_the_state_over(
                *facts,
                fields_view(body@),
                upgrader@,
                room_id@,
                steps,
                k,
            );
            let c = if k > 0 {
                facts.old_state@[k]->0@
            } else {
                choose|c: JsonV| #[trigger]
                    steps.contains(
                        CreateStepV::SendState {
                            event_type: transferable()[k],
                            state_key: Seq::empty(),
                            content: c,
                        },
                    )
            };
            let x = CreateStepV::SendState {
                event_type: transferable()[k],
                state_key: Seq::empty(),
                content: c,
            };
            assert(steps.contains(x));
            let j = choose|j: int| 0 <= j < steps.len() && steps[j] == x;
            assert(steps[j] == v@[j]@);
            assert(v@[j] is SendState);
        },
        Err(_) => {},
    }
}

} // verus!
