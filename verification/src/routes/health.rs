//! The probes that an orchestrator polls. Their bodies carry a status and a
//! reason and nothing else.
use crate::json::{no_fields, object_of, one_field, put_str, text_json, Json, JsonV};
use vstd::prelude::*;

verus! {

/// Liveness: is the process working? A status code and a body.
pub fn live(works: bool) -> (r: (u16, Json))
    ensures
        r.0 == (if works {
            200u16
        } else {
            503u16
        }),
        r.1@ == one_field(
            "status"@,
            JsonV::Str(
                if works {
                    "ok"@
                } else {
                    "error"@
                },
            ),
        ),
{
    if works {
        (200, object_of("status", text_json("ok")))
    } else {
        (503, object_of("status", text_json("error")))
    }
}

/// Readiness: should this node be sent traffic? Otherwise the reason and the
/// detail say why not.
pub fn ready(refusal: Option<(&str, &str)>) -> (r: (u16, Json))
    ensures
        match refusal {
            None => r.0 == 200 && r.1@ == one_field("status"@, JsonV::Str("ready"@)),
            Some((reason, detail)) => r.0 == 503 && r.1@ == JsonV::Object(
                no_fields().insert("status"@, JsonV::Str("not_ready"@)).insert(
                    "reason"@,
                    JsonV::Str(reason@),
                ).insert("detail"@, JsonV::Str(detail@)),
            ),
        },
{
    match refusal {
        None => (200, object_of("status", text_json("ready"))),
        Some((reason, detail)) => {
            let mut m: Vec<(String, Json)> = Vec::new();
            put_str(&mut m, "status", text_json("not_ready"));
            put_str(&mut m, "reason", text_json(reason));
            put_str(&mut m, "detail", text_json(detail));
            (503, Json::Object(m))
        },
    }
}

/// A server that works answers 200, and one that does not 503.
pub proof fn law_health_is_told_by_the_status(
    works: bool,
    r: (u16, Json),
)
    requires
        call_ensures(live, (works,), r),
    ensures
        works ==> r.0 == 200,
        !works ==> r.0 == 503,
{
}

/// A server that is ready answers 200, and one that is not 503.
pub proof fn law_readiness_is_told_by_the_status(
    refusal: Option<(&str, &str)>,
    r: (u16, Json),
)
    requires
        call_ensures(ready, (refusal,), r),
    ensures
        refusal is None ==> r.0 == 200,
        refusal is Some ==> r.0 == 503,
{
}

} // verus!
