//! Matrix identifiers: which texts are identifiers, and which server they
//! name.
use crate::text::{cut_at, find_char_from, lemma_find_char, lemma_find_char_at, split_once};
use vstd::prelude::*;
use vstd::utf8::encode_utf8;

verus! {

/// What the grammar of server names says of a text.
pub uninterp spec fn is_server_name(s: Seq<char>) -> bool;

/// No more than 255 bytes, beginning with `sigil`.
pub open spec fn is_short_id(s: Seq<char>, sigil: char) -> bool {
    encode_utf8(s).len() <= 255 && s.len() > 0 && s[0] == sigil
}

/// A short identifier that has a colon, with a server name behind its first
/// colon.
pub open spec fn is_server_id(s: Seq<char>, sigil: char) -> bool {
    is_short_id(s, sigil) && match cut_at(s, ':') {
        Some((_, server)) => is_server_name(server),
        None => false,
    }
}

/// A user ID: `@localpart:server`, with no NUL in the localpart.
pub open spec fn is_user_id(s: Seq<char>) -> bool {
    is_server_id(s, '@') && match cut_at(s, ':') {
        Some((local, _)) => !local.contains('\0'),
        None => false,
    }
}

/// A room alias: `#localpart:server`, with no NUL in the localpart.
pub open spec fn is_room_alias(s: Seq<char>) -> bool {
    is_server_id(s, '#') && match cut_at(s, ':') {
        Some((local, _)) => !local.contains('\0'),
        None => false,
    }
}

/// A room ID: `!` and anything without a NUL.
pub open spec fn is_room_id(s: Seq<char>) -> bool {
    is_short_id(s, '!') && !s.contains('\0')
}

/// A room ID or a room alias.
pub open spec fn is_room_or_alias(s: Seq<char>) -> bool {
    is_room_id(s) || is_room_alias(s)
}

/// An event ID: `$` and anything without a colon, or `$opaque:server`.
pub open spec fn is_event_id(s: Seq<char>) -> bool {
    if s.contains(':') {
        is_server_id(s, '$')
    } else {
        s.len() > 0 && s[0] == '$'
    }
}

/// The server that an identifier names: what follows its first colon.
pub open spec fn server_in(id: Seq<char>) -> Option<Seq<char>> {
    match cut_at(id, ':') {
        Some((_, server)) => Some(server),
        None => None,
    }
}

/// `ruma::ServerName::parse` succeeds: the text is a host name, an IPv4 or a
/// bracketed IPv6 address, and an optional port. The grammar is named, not
/// stated.
#[verifier::external_body]
pub(crate) fn server_name_ok(s: &str) -> (r: bool)
    ensures
        r == is_server_name(s@),
{
    ruma::ServerName::parse(s).is_ok()
}

/// How `ruma::UserId::parse` words what is wrong with a text.
pub uninterp spec fn user_id_fault(s: Seq<char>) -> Seq<char>;

/// `ruma::UserId::parse`: succeeds on a user ID, and on nothing else. The wording
/// of its error is named, not stated.
#[verifier::external_body]
pub(crate) fn check_user_id(s: &str) -> (r: Result<(), String>)
    ensures
        r is Ok <==> is_user_id(s@),
        r matches Err(e) ==> e@ == user_id_fault(s@),
{
    ruma::UserId::parse(s).map(|_| ()).map_err(|e| e.to_string())
}

/// How `ruma::RoomAliasId::parse` words what is wrong with a text.
pub uninterp spec fn room_alias_fault(s: Seq<char>) -> Seq<char>;

/// `ruma::RoomAliasId::parse`: succeeds on a room alias, and on nothing else. The wording
/// of its error is named, not stated.
#[verifier::external_body]
pub(crate) fn check_room_alias(s: &str) -> (r: Result<(), String>)
    ensures
        r is Ok <==> is_room_alias(s@),
        r matches Err(e) ==> e@ == room_alias_fault(s@),
{
    ruma::RoomAliasId::parse(s).map(|_| ()).map_err(|e| e.to_string())
}

/// How `ruma::RoomId::parse` words what is wrong with a text.
pub uninterp spec fn room_id_fault(s: Seq<char>) -> Seq<char>;

/// `ruma::RoomId::parse`: succeeds on a room ID, and on nothing else. The wording
/// of its error is named, not stated.
#[verifier::external_body]
pub(crate) fn check_room_id(s: &str) -> (r: Result<(), String>)
    ensures
        r is Ok <==> is_room_id(s@),
        r matches Err(e) ==> e@ == room_id_fault(s@),
{
    ruma::RoomId::parse(s).map(|_| ()).map_err(|e| e.to_string())
}

/// How `ruma::RoomOrAliasId::parse` words what is wrong with a text.
pub uninterp spec fn room_or_alias_fault(s: Seq<char>) -> Seq<char>;

/// `ruma::RoomOrAliasId::parse`: succeeds on a room ID or an alias, and on nothing else. The wording
/// of its error is named, not stated.
#[verifier::external_body]
pub(crate) fn check_room_or_alias(s: &str) -> (r: Result<(), String>)
    ensures
        r is Ok <==> is_room_or_alias(s@),
        r matches Err(e) ==> e@ == room_or_alias_fault(s@),
{
    ruma::RoomOrAliasId::parse(s).map(|_| ()).map_err(|e| e.to_string())
}

/// How `ruma::EventId::parse` words what is wrong with a text.
pub uninterp spec fn event_id_fault(s: Seq<char>) -> Seq<char>;

/// `ruma::EventId::parse`: succeeds on an event ID, and on nothing else. The wording
/// of its error is named, not stated.
#[verifier::external_body]
pub(crate) fn check_event_id(s: &str) -> (r: Result<(), String>)
    ensures
        r is Ok <==> is_event_id(s@),
        r matches Err(e) ==> e@ == event_id_fault(s@),
{
    ruma::EventId::parse(s).map(|_| ()).map_err(|e| e.to_string())
}

/// The server that an identifier names.
pub fn server_part(id: &str) -> (r: Option<String>)
    ensures
        r is Some <==> server_in(id@) is Some,
        r matches Some(s) ==> server_in(id@) == Some(s@),
{
    match split_once(id, ':') {
        Some((_, server)) => Some(server),
        None => None,
    }
}

/// The server of an identifier is what stands behind its first colon.
pub proof fn law_servers_stand_behind_the_colon(local: Seq<char>, server: Seq<char>)
    requires
        !local.contains(':'),
    ensures
        server_in(local + seq![':'] + server) == Some(server),
        server_in(local) is None,
{
    let id = local + seq![':'] + server;
    let n = local.len() as int;
    assert(id[n] == ':');
    assert forall|j: int| 0 <= j < n implies #[trigger] id[j] != ':' by {
        assert(local.contains(local[j]));
    }
    lemma_find_char_at(id, ':', 0, n);
    assert(id.skip(n + 1) =~= server);
    lemma_find_char(local, ':', 0);
    if find_char_from(local, ':', 0) is Some {
        assert(local.contains(local[find_char_from(local, ':', 0)->0]));
    }
}

/// A user ID begins with `@`, an alias with `#`, a room ID with `!` and an event
/// ID with `$`; user IDs and aliases name a server behind their first colon.
pub proof fn law_sigils_tell_ids_apart(s: Seq<char>)
    ensures
        is_user_id(s) ==> s[0] == '@' && s.len() > 0,
        is_room_alias(s) ==> s[0] == '#' && s.len() > 0,
        is_room_id(s) ==> s[0] == '!' && s.len() > 0,
        is_event_id(s) ==> s[0] == '$' && s.len() > 0,
        is_user_id(s) ==> server_in(s) is Some && is_server_name(server_in(s)->0),
        is_room_alias(s) ==> server_in(s) is Some && is_server_name(server_in(s)->0),
        is_room_or_alias(s) <==> is_room_id(s) || is_room_alias(s),
        !s.contains(':') && s.len() > 0 && s[0] == '$' ==> is_event_id(s),
        !s.contains('\0') && s.len() > 0 && s[0] == '!' && encode_utf8(s).len() <= 255
            ==> is_room_id(s),
        s.len() > 0 && s[0] == '@' && encode_utf8(s).len() <= 255 && (cut_at(s, ':') matches Some(p)
            && is_server_name(p.1) && !p.0.contains('\0')) ==> is_user_id(s),
        s.len() > 0 && s[0] == '#' && encode_utf8(s).len() <= 255 && (cut_at(s, ':') matches Some(p)
            && is_server_name(p.1) && !p.0.contains('\0')) ==> is_room_alias(s),
        encode_utf8(s).len() > 255 ==> !is_user_id(s) && !is_room_alias(s) && !is_room_id(s),
{
}

} // verus!
