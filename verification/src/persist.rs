//! Mapping the registry to and from its persisted JSON document.
//!
//! Each entity has a `*_jval` spec function giving the document it persists
//! as, a `jval_is_*` shape predicate the decoder accepts, an encoder whose
//! result shadows the spec document, and a decoder that accepts exactly the
//! shaped documents. Together with the codec's round trip this yields the
//! registry round trip (see `lemma_save_load_round_trip`).

use vstd::prelude::*;
use vstd::string::StringExecFns;
use crate::codec::{jview, jview_list, jview_props, JVal, Json};
use crate::entities::{Agent, AgentModel, AgentState};
use crate::strutil::str_eq;

verus! {

/// The largest `u64` magnitude an `i64` can carry: `2^63`.
pub const I64_MAG_LIMIT: u64 = 0x8000000000000000;

/// An optional string persists as the string or `null`.
pub open spec fn jval_of_opt_str(o: Option<String>) -> JVal {
    match o {
        Some(s) => JVal::Str(s@),
        None => JVal::Null,
    }
}

/// What the decoder accepts as an optional string.
pub open spec fn jval_is_opt_str(v: JVal) -> bool {
    v is Null || v is Str
}

/// A signed timestamp persists as a number.
pub open spec fn jval_of_i64(t: i64) -> JVal {
    if t >= 0 {
        JVal::Num { neg: false, mag: t as u64 }
    } else {
        JVal::Num { neg: true, mag: (-(t as int)) as u64 }
    }
}

/// What the decoder accepts as a signed timestamp.
pub open spec fn jval_is_i64(v: JVal) -> bool {
    v matches JVal::Num { neg, mag } && (if neg {
        1 <= mag <= I64_MAG_LIMIT
    } else {
        mag <= i64::MAX
    })
}

/// An unsigned counter persists as a number.
pub open spec fn jval_of_u64(n: u64) -> JVal {
    JVal::Num { neg: false, mag: n }
}

/// What the decoder accepts as an unsigned counter.
pub open spec fn jval_is_u64(v: JVal) -> bool {
    v matches JVal::Num { neg, mag } && !neg
}

/// An optional pid persists as a number or `null`.
pub open spec fn jval_of_opt_u32(o: Option<u32>) -> JVal {
    match o {
        Some(n) => JVal::Num { neg: false, mag: n as u64 },
        None => JVal::Null,
    }
}

/// What the decoder accepts as an optional pid.
pub open spec fn jval_is_opt_u32(v: JVal) -> bool {
    v is Null || (v matches JVal::Num { neg, mag } && !neg && mag <= u32::MAX)
}

/// An optional timestamp persists as a number or `null`.
pub open spec fn jval_of_opt_i64(o: Option<i64>) -> JVal {
    match o {
        Some(t) => jval_of_i64(t),
        None => JVal::Null,
    }
}

/// What the decoder accepts as an optional timestamp.
pub open spec fn jval_is_opt_i64(v: JVal) -> bool {
    v is Null || jval_is_i64(v)
}

/// A list of labels or tools persists as an array of strings.
pub open spec fn jval_of_str_list(v: Seq<String>) -> JVal {
    JVal::Arr(v.map_values(|s: String| JVal::Str(s@)))
}

/// What the decoder accepts as an array of strings.
pub open spec fn jval_is_str_list(v: JVal) -> bool {
    v matches JVal::Arr(elems) && forall|t: int| 0 <= t < elems.len() ==> (#[trigger] elems[t]) is Str
}

/// A model persists as its variant name, or `{"Custom": name}`.
pub open spec fn jval_of_model(m: AgentModel) -> JVal {
    match m {
        AgentModel::AssistantCli => JVal::Str("AssistantCli"@),
        AgentModel::Sonnet35 => JVal::Str("Sonnet35"@),
        AgentModel::Haiku35 => JVal::Str("Haiku35"@),
        AgentModel::Gpt4o => JVal::Str("Gpt4o"@),
        AgentModel::Gpt4oMini => JVal::Str("Gpt4oMini"@),
        AgentModel::Custom(name) => JVal::Obj(seq![("Custom"@, JVal::Str(name@))]),
    }
}

/// What the decoder accepts as a model.
pub open spec fn jval_is_model(v: JVal) -> bool {
    ||| (v matches JVal::Str(s) && (s == "AssistantCli"@ || s == "Sonnet35"@ || s
        == "Haiku35"@ || s == "Gpt4o"@ || s == "Gpt4oMini"@))
    ||| (v matches JVal::Obj(p) && p.len() == 1 && p[0].0 == "Custom"@ && p[0].1 is Str)
}

/// A state persists as its variant name, or `{"Error": reason}`.
pub open spec fn jval_of_state(st: AgentState) -> JVal {
    match st {
        AgentState::Starting => JVal::Str("Starting"@),
        AgentState::Running => JVal::Str("Running"@),
        AgentState::Idle => JVal::Str("Idle"@),
        AgentState::Stopping => JVal::Str("Stopping"@),
        AgentState::Stopped => JVal::Str("Stopped"@),
        AgentState::Error(reason) => JVal::Obj(seq![("Error"@, JVal::Str(reason@))]),
    }
}

/// What the decoder accepts as a state.
pub open spec fn jval_is_state(v: JVal) -> bool {
    ||| (v matches JVal::Str(s) && (s == "Starting"@ || s == "Running"@ || s == "Idle"@ || s
        == "Stopping"@ || s == "Stopped"@))
    ||| (v matches JVal::Obj(p) && p.len() == 1 && p[0].0 == "Error"@ && p[0].1 is Str)
}

/// An optional string as a document tree.
fn opt_str_to_json(o: &Option<String>) -> (r: Json)
    ensures
        jview(r) == jval_of_opt_str(*o),
{
    match o {
        Some(s) => Json::Str(s.clone()),
        None => Json::Null,
    }
}

/// An optional string from a shaped document tree.
fn json_to_opt_str(j: &Json) -> (r: Option<Option<String>>)
    ensures
        match r {
            Some(o) => jview(*j) == jval_of_opt_str(o) && jval_is_opt_str(jview(*j)),
            None => !jval_is_opt_str(jview(*j)),
        },
{
    match j {
        Json::Null => Some(None),
        Json::Str(s) => Some(Some(s.clone())),
        _ => None,
    }
}

/// A signed timestamp as a document tree.
fn i64_to_json(t: i64) -> (r: Json)
    ensures
        jview(r) == jval_of_i64(t),
{
    if t >= 0 {
        Json::Num { neg: false, mag: t as u64 }
    } else if t == i64::MIN {
        Json::Num { neg: true, mag: I64_MAG_LIMIT }
    } else {
        Json::Num { neg: true, mag: (-t) as u64 }
    }
}

/// A signed timestamp from a shaped document tree.
fn json_to_i64(j: &Json) -> (r: Option<i64>)
    ensures
        match r {
            Some(t) => jview(*j) == jval_of_i64(t) && jval_is_i64(jview(*j)),
            None => !jval_is_i64(jview(*j)),
        },
{
    match j {
        Json::Num { neg, mag } => {
            if *neg {
                if *mag == 0 || *mag > I64_MAG_LIMIT {
                    None
                } else if *mag == I64_MAG_LIMIT {
                    Some(i64::MIN)
                } else {
                    Some(-((*mag) as i64))
                }
            } else {
                if *mag > (i64::MAX as u64) {
                    None
                } else {
                    Some((*mag) as i64)
                }
            }
        },
        _ => None,
    }
}

/// An optional timestamp as a document tree.
fn opt_i64_to_json(o: &Option<i64>) -> (r: Json)
    ensures
        jview(r) == jval_of_opt_i64(*o),
{
    match o {
        Some(t) => i64_to_json(*t),
        None => Json::Null,
    }
}

/// An optional timestamp from a shaped document tree.
fn json_to_opt_i64(j: &Json) -> (r: Option<Option<i64>>)
    ensures
        match r {
            Some(o) => jview(*j) == jval_of_opt_i64(o) && jval_is_opt_i64(jview(*j)),
            None => !jval_is_opt_i64(jview(*j)),
        },
{
    match j {
        Json::Null => Some(None),
        _ => match json_to_i64(j) {
            Some(t) => Some(Some(t)),
            None => None,
        },
    }
}

/// An optional pid from a shaped document tree.
fn json_to_opt_u32(j: &Json) -> (r: Option<Option<u32>>)
    ensures
        match r {
            Some(o) => jview(*j) == jval_of_opt_u32(o) && jval_is_opt_u32(jview(*j)),
            None => !jval_is_opt_u32(jview(*j)),
        },
{
    match j {
        Json::Null => Some(None),
        Json::Num { neg, mag } => {
            if !*neg && *mag <= u32::MAX as u64 {
                Some(Some((*mag) as u32))
            } else {
                None
            }
        },
        _ => None,
    }
}

/// An optional pid as a document tree.
fn opt_u32_to_json(o: &Option<u32>) -> (r: Json)
    ensures
        jview(r) == jval_of_opt_u32(*o),
{
    match o {
        Some(n) => Json::Num { neg: false, mag: (*n) as u64 },
        None => Json::Null,
    }
}

/// A list of strings as a document tree.
fn str_list_to_json(v: &Vec<String>) -> (r: Json)
    ensures
        jview(r) == jval_of_str_list(v@),
{
    let mut elems: Vec<Json> = Vec::new();
    let mut i: usize = 0;
    while i < v.len()
        invariant
            i <= v@.len(),
            elems@.len() == i,
            forall|t: int| 0 <= t < i ==> #[trigger] elems@[t] == Json::Str(v@[t]),
        decreases v@.len() - i,
    {
        elems.push(Json::Str(v[i].clone()));
        i += 1;
    }
    let r = Json::Arr(elems);
    proof {
        assert forall|t: int| 0 <= t < v@.len() implies #[trigger] jview_list(elems@)[t]
            == JVal::Str(v@[t]@) by {
            crate::codec::lemma_jview_list_index(elems@, t);
        }
        crate::codec::lemma_jview_list_index(elems@, 0);
        assert(jview_list(elems@) =~= v@.map_values(|s: String| JVal::Str(s@)));
    }
    r
}

/// A list of strings from a shaped document tree.
fn json_to_str_list(j: &Json) -> (r: Option<Vec<String>>)
    ensures
        match r {
            Some(v) => jview(*j) == jval_of_str_list(v@) && jval_is_str_list(jview(*j)),
            None => !jval_is_str_list(jview(*j)),
        },
{
    match j {
        Json::Arr(elems) => {
            let mut out: Vec<String> = Vec::new();
            let mut i: usize = 0;
            while i < elems.len()
                invariant
                    i <= elems@.len(),
                    out@.len() == i,
                    jview(*j) == JVal::Arr(jview_list(elems@)),
                    forall|t: int|
                        0 <= t < i ==> ((#[trigger] elems@[t]) matches Json::Str(s) && out@[t]@
                            == s@),
                decreases elems@.len() - i,
            {
                match &elems[i] {
                    Json::Str(s) => {
                        out.push(s.clone());
                    },
                    _ => {
                        proof {
                            crate::codec::lemma_jview_list_index(elems@, i as int);
                            assert(!(jview_list(elems@)[i as int] is Str));
                        }
                        return None;
                    },
                }
                i += 1;
            }
            proof {
                assert forall|t: int| 0 <= t < elems@.len() implies (#[trigger] jview_list(
                    elems@,
                )[t]) is Str by {
                    crate::codec::lemma_jview_list_index(elems@, t);
                }
                crate::codec::lemma_jview_list_index(elems@, 0);
                assert(jview_list(elems@) =~= out@.map_values(|s: String| JVal::Str(s@))) by {
                    assert forall|t: int| 0 <= t < elems@.len() implies jview_list(elems@)[t]
                        == out@.map_values(|s: String| JVal::Str(s@))[t] by {
                        crate::codec::lemma_jview_list_index(elems@, t);
                    }
                }
            }
            Some(out)
        },
        _ => None,
    }
}

/// A model as a document tree.
fn model_to_json(m: &AgentModel) -> (r: Json)
    ensures
        jview(r) == jval_of_model(*m),
{
    match m {
        AgentModel::AssistantCli => Json::Str(String::from_str("AssistantCli")),
        AgentModel::Sonnet35 => Json::Str(String::from_str("Sonnet35")),
        AgentModel::Haiku35 => Json::Str(String::from_str("Haiku35")),
        AgentModel::Gpt4o => Json::Str(String::from_str("Gpt4o")),
        AgentModel::Gpt4oMini => Json::Str(String::from_str("Gpt4oMini")),
        AgentModel::Custom(name) => {
            let mut props: Vec<(String, Json)> = Vec::new();
            props.push((String::from_str("Custom"), Json::Str(name.clone())));
            let r = Json::Obj(props);
            proof {
                assert(jview_props(props@) =~= seq![("Custom"@, JVal::Str(name@))]) by {
                    crate::codec::lemma_jview_props_index(props@, 0);
                }
            }
            r
        },
    }
}

/// A model from a shaped document tree, up to the characters of a custom
/// name.
fn json_to_model(j: &Json) -> (r: Option<AgentModel>)
    ensures
        match r {
            Some(m) => jview(*j) == jval_of_model(m) && jval_is_model(jview(*j)),
            None => !jval_is_model(jview(*j)),
        },
{
    match j {
        Json::Str(s) => {
            if str_eq(s.as_str(), "AssistantCli") {
                Some(AgentModel::AssistantCli)
            } else if str_eq(s.as_str(), "Sonnet35") {
                Some(AgentModel::Sonnet35)
            } else if str_eq(s.as_str(), "Haiku35") {
                Some(AgentModel::Haiku35)
            } else if str_eq(s.as_str(), "Gpt4o") {
                Some(AgentModel::Gpt4o)
            } else if str_eq(s.as_str(), "Gpt4oMini") {
                Some(AgentModel::Gpt4oMini)
            } else {
                None
            }
        },
        Json::Obj(props) => {
            if props.len() != 1 {
                proof {
                    crate::codec::lemma_jview_props_index(props@, 0);
                }
                return None;
            }
            proof {
                crate::codec::lemma_jview_props_index(props@, 0);
            }
            if !str_eq(props[0].0.as_str(), "Custom") {
                return None;
            }
            match &props[0].1 {
                Json::Str(name) => Some(AgentModel::Custom(name.clone())),
                _ => None,
            }
        },
        _ => None,
    }
}

/// A state as a document tree.
fn state_to_json(st: &AgentState) -> (r: Json)
    ensures
        jview(r) == jval_of_state(*st),
{
    match st {
        AgentState::Starting => Json::Str(String::from_str("Starting")),
        AgentState::Running => Json::Str(String::from_str("Running")),
        AgentState::Idle => Json::Str(String::from_str("Idle")),
        AgentState::Stopping => Json::Str(String::from_str("Stopping")),
        AgentState::Stopped => Json::Str(String::from_str("Stopped")),
        AgentState::Error(reason) => {
            let mut props: Vec<(String, Json)> = Vec::new();
            props.push((String::from_str("Error"), Json::Str(reason.clone())));
            let r = Json::Obj(props);
            proof {
                assert(jview_props(props@) =~= seq![("Error"@, JVal::Str(reason@))]) by {
                    crate::codec::lemma_jview_props_index(props@, 0);
                }
            }
            r
        },
    }
}

/// A state from a shaped document tree, up to the characters of an error
/// reason.
fn json_to_state(j: &Json) -> (r: Option<AgentState>)
    ensures
        match r {
            Some(st) => jview(*j) == jval_of_state(st) && jval_is_state(jview(*j)),
            None => !jval_is_state(jview(*j)),
        },
{
    match j {
        Json::Str(s) => {
            if str_eq(s.as_str(), "Starting") {
                Some(AgentState::Starting)
            } else if str_eq(s.as_str(), "Running") {
                Some(AgentState::Running)
            } else if str_eq(s.as_str(), "Idle") {
                Some(AgentState::Idle)
            } else if str_eq(s.as_str(), "Stopping") {
                Some(AgentState::Stopping)
            } else if str_eq(s.as_str(), "Stopped") {
                Some(AgentState::Stopped)
            } else {
                None
            }
        },
        Json::Obj(props) => {
            if props.len() != 1 {
                proof {
                    crate::codec::lemma_jview_props_index(props@, 0);
                }
                return None;
            }
            proof {
                crate::codec::lemma_jview_props_index(props@, 0);
            }
            if !str_eq(props[0].0.as_str(), "Error") {
                return None;
            }
            match &props[0].1 {
                Json::Str(reason) => Some(AgentState::Error(reason.clone())),
                _ => None,
            }
        },
        _ => None,
    }
}


/// The document an agent persists as.
pub open spec fn spec_agent_jval(a: Agent) -> JVal {
    JVal::Obj(
        seq![
            ("id"@, JVal::Str(a.id@)),
            ("name"@, JVal::Str(a.name@)),
            ("window_id"@, JVal::Str(a.window_id@)),
            ("session_id"@, JVal::Str(a.session_id@)),
            ("model"@, jval_of_model(a.model)),
            ("state"@, jval_of_state(a.state)),
            ("project"@, jval_of_opt_str(a.project)),
            ("labels"@, jval_of_str_list(a.labels@)),
            ("pid"@, jval_of_opt_u32(a.pid)),
            ("tokens_used"@, jval_of_u64(a.tokens_used)),
            ("estimated_cost"@, jval_of_u64(a.estimated_cost)),
            ("uptime_start"@, jval_of_opt_i64(a.uptime_start)),
            ("task_description"@, jval_of_opt_str(a.task_description)),
            ("tools"@, jval_of_str_list(a.tools@)),
            ("artifacts_path"@, jval_of_opt_str(a.artifacts_path)),
            ("created_at"@, jval_of_i64(a.created_at)),
            ("last_activity"@, jval_of_i64(a.last_activity)),
        ],
    )
}

/// What the decoder accepts as an agent.
pub open spec fn jval_is_agent(v: JVal) -> bool {
    &&& v matches JVal::Obj(p)
    &&& p.len() == 17
    &&& p[0].0 == "id"@ && p[0].1 is Str
    &&& p[1].0 == "name"@ && p[1].1 is Str
    &&& p[2].0 == "window_id"@ && p[2].1 is Str
    &&& p[3].0 == "session_id"@ && p[3].1 is Str
    &&& p[4].0 == "model"@ && jval_is_model(p[4].1)
    &&& p[5].0 == "state"@ && jval_is_state(p[5].1)
    &&& p[6].0 == "project"@ && jval_is_opt_str(p[6].1)
    &&& p[7].0 == "labels"@ && jval_is_str_list(p[7].1)
    &&& p[8].0 == "pid"@ && jval_is_opt_u32(p[8].1)
    &&& p[9].0 == "tokens_used"@ && jval_is_u64(p[9].1)
    &&& p[10].0 == "estimated_cost"@ && jval_is_u64(p[10].1)
    &&& p[11].0 == "uptime_start"@ && jval_is_opt_i64(p[11].1)
    &&& p[12].0 == "task_description"@ && jval_is_opt_str(p[12].1)
    &&& p[13].0 == "tools"@ && jval_is_str_list(p[13].1)
    &&& p[14].0 == "artifacts_path"@ && jval_is_opt_str(p[14].1)
    &&& p[15].0 == "created_at"@ && jval_is_i64(p[15].1)
    &&& p[16].0 == "last_activity"@ && jval_is_i64(p[16].1)
}

/// An agent as a document tree.
pub fn agent_to_json(a: &Agent) -> (r: Json)
    ensures
        jview(r) == spec_agent_jval(*a),
{
    let mut props: Vec<(String, Json)> = Vec::new();
    props.push((String::from_str("id"), Json::Str(a.id.clone())));
    props.push((String::from_str("name"), Json::Str(a.name.clone())));
    props.push((String::from_str("window_id"), Json::Str(a.window_id.clone())));
    props.push((String::from_str("session_id"), Json::Str(a.session_id.clone())));
    props.push((String::from_str("model"), model_to_json(&a.model)));
    props.push((String::from_str("state"), state_to_json(&a.state)));
    props.push((String::from_str("project"), opt_str_to_json(&a.project)));
    props.push((String::from_str("labels"), str_list_to_json(&a.labels)));
    props.push((String::from_str("pid"), opt_u32_to_json(&a.pid)));
    props.push((String::from_str("tokens_used"), Json::Num { neg: false, mag: a.tokens_used }));
    props.push(
        (String::from_str("estimated_cost"), Json::Num { neg: false, mag: a.estimated_cost }),
    );
    props.push((String::from_str("uptime_start"), opt_i64_to_json(&a.uptime_start)));
    props.push((String::from_str("task_description"), opt_str_to_json(&a.task_description)));
    props.push((String::from_str("tools"), str_list_to_json(&a.tools)));
    props.push((String::from_str("artifacts_path"), opt_str_to_json(&a.artifacts_path)));
    props.push((String::from_str("created_at"), i64_to_json(a.created_at)));
    props.push((String::from_str("last_activity"), i64_to_json(a.last_activity)));
    let r = Json::Obj(props);
    proof {
        let target = spec_agent_jval(*a)->Obj_0;
        assert(jview_props(props@) =~= target) by {
            assert forall|t: int| 0 <= t < 17 implies jview_props(props@)[t] == target[t] by {
                crate::codec::lemma_jview_props_index(props@, t);
            }
            crate::codec::lemma_jview_props_index(props@, 0);
        }
    }
    r
}

/// An agent from a shaped document tree.
pub fn json_to_agent(j: &Json) -> (r: Option<Agent>)
    ensures
        match r {
            Some(a) => jview(*j) == spec_agent_jval(a) && jval_is_agent(jview(*j)),
            None => !jval_is_agent(jview(*j)),
        },
{
    let props = match j {
        Json::Obj(props) => props,
        _ => {
            return None;
        },
    };
    proof {
        crate::codec::lemma_jview_props_index(props@, 0);
    }
    if props.len() != 17 {
        return None;
    }
    proof {
        assert forall|t: int| 0 <= t < 17 implies jview_props(props@)[t] == (
        props@[t].0@,
        jview(props@[t].1),
        ) by {
            crate::codec::lemma_jview_props_index(props@, t);
        }
    }
    if !(str_eq(props[0].0.as_str(), "id") && str_eq(props[1].0.as_str(), "name") && str_eq(
        props[2].0.as_str(),
        "window_id",
    ) && str_eq(props[3].0.as_str(), "session_id") && str_eq(props[4].0.as_str(), "model")
        && str_eq(props[5].0.as_str(), "state") && str_eq(props[6].0.as_str(), "project")
        && str_eq(props[7].0.as_str(), "labels") && str_eq(props[8].0.as_str(), "pid") && str_eq(
        props[9].0.as_str(),
        "tokens_used",
    ) && str_eq(props[10].0.as_str(), "estimated_cost") && str_eq(
        props[11].0.as_str(),
        "uptime_start",
    ) && str_eq(props[12].0.as_str(), "task_description") && str_eq(
        props[13].0.as_str(),
        "tools",
    ) && str_eq(props[14].0.as_str(), "artifacts_path") && str_eq(
        props[15].0.as_str(),
        "created_at",
    ) && str_eq(props[16].0.as_str(), "last_activity")) {
        return None;
    }
    let id = match &props[0].1 {
        Json::Str(s) => s.clone(),
        _ => {
            return None;
        },
    };
    let name = match &props[1].1 {
        Json::Str(s) => s.clone(),
        _ => {
            return None;
        },
    };
    let window_id = match &props[2].1 {
        Json::Str(s) => s.clone(),
        _ => {
            return None;
        },
    };
    let session_id = match &props[3].1 {
        Json::Str(s) => s.clone(),
        _ => {
            return None;
        },
    };
    let model = match json_to_model(&props[4].1) {
        Some(m) => m,
        None => {
            return None;
        },
    };
    let state = match json_to_state(&props[5].1) {
        Some(st) => st,
        None => {
            return None;
        },
    };
    let project = match json_to_opt_str(&props[6].1) {
        Some(o) => o,
        None => {
            return None;
        },
    };
    let labels = match json_to_str_list(&props[7].1) {
        Some(v) => v,
        None => {
            return None;
        },
    };
    let pid = match json_to_opt_u32(&props[8].1) {
        Some(o) => o,
        None => {
            return None;
        },
    };
    let tokens_used = match &props[9].1 {
        Json::Num { neg, mag } => {
            if *neg {
                return None;
            }
            *mag
        },
        _ => {
            return None;
        },
    };
    let estimated_cost = match &props[10].1 {
        Json::Num { neg, mag } => {
            if *neg {
                return None;
            }
            *mag
        },
        _ => {
            return None;
        },
    };
    let uptime_start = match json_to_opt_i64(&props[11].1) {
        Some(o) => o,
        None => {
            return None;
        },
    };
    let task_description = match json_to_opt_str(&props[12].1) {
        Some(o) => o,
        None => {
            return None;
        },
    };
    let tools = match json_to_str_list(&props[13].1) {
        Some(v) => v,
        None => {
            return None;
        },
    };
    let artifacts_path = match json_to_opt_str(&props[14].1) {
        Some(o) => o,
        None => {
            return None;
        },
    };
    let created_at = match json_to_i64(&props[15].1) {
        Some(t) => t,
        None => {
            return None;
        },
    };
    let last_activity = match json_to_i64(&props[16].1) {
        Some(t) => t,
        None => {
            return None;
        },
    };
    let a = Agent {
        id,
        name,
        window_id,
        session_id,
        model,
        state,
        project,
        labels,
        pid,
        tokens_used,
        estimated_cost,
        uptime_start,
        task_description,
        tools,
        artifacts_path,
        created_at,
        last_activity,
    };
    proof {
        assert(jview(*j) =~= spec_agent_jval(a)) by {
            assert(jview_props(props@) =~= spec_agent_jval(a)->Obj_0);
        }
    }
    Some(a)
}


/// The document a window persists as.
pub open spec fn spec_window_jval(w: crate::entities::Window) -> JVal {
    JVal::Obj(
        seq![
            ("id"@, JVal::Str(w.id@)),
            ("name"@, JVal::Str(w.name@)),
            ("session_id"@, JVal::Str(w.session_id@)),
            ("agents"@, JVal::Arr(w.agents@.map_values(|a: Agent| spec_agent_jval(a)))),
            ("project"@, jval_of_opt_str(w.project)),
            ("labels"@, jval_of_str_list(w.labels@)),
            ("worktree_path"@, jval_of_opt_str(w.worktree_path)),
            ("branch"@, jval_of_opt_str(w.branch)),
            ("created_at"@, jval_of_i64(w.created_at)),
        ],
    )
}

/// What the decoder accepts as a window.
pub open spec fn jval_is_window(v: JVal) -> bool {
    &&& v matches JVal::Obj(p)
    &&& p.len() == 9
    &&& p[0].0 == "id"@ && p[0].1 is Str
    &&& p[1].0 == "name"@ && p[1].1 is Str
    &&& p[2].0 == "session_id"@ && p[2].1 is Str
    &&& p[3].0 == "agents"@ && jval_is_agent_arr(p[3].1)
    &&& p[4].0 == "project"@ && jval_is_opt_str(p[4].1)
    &&& p[5].0 == "labels"@ && jval_is_str_list(p[5].1)
    &&& p[6].0 == "worktree_path"@ && jval_is_opt_str(p[6].1)
    &&& p[7].0 == "branch"@ && jval_is_opt_str(p[7].1)
    &&& p[8].0 == "created_at"@ && jval_is_i64(p[8].1)
}


/// Whether every element is agent-shaped.
pub open spec fn all_agents_shaped(elems: Seq<JVal>) -> bool {
    forall|t: int| 0 <= t < elems.len() ==> jval_is_agent(#[trigger] elems[t])
}

/// What the decoder accepts as an array of agents.
pub open spec fn jval_is_agent_arr(v: JVal) -> bool {
    v matches JVal::Arr(elems) && all_agents_shaped(elems)
}

/// The agents of a window as a document tree.
fn agents_to_json(v: &Vec<Agent>) -> (r: Json)
    ensures
        jview(r) == JVal::Arr(v@.map_values(|a: Agent| spec_agent_jval(a))),
{
    let mut elems: Vec<Json> = Vec::new();
    let mut i: usize = 0;
    while i < v.len()
        invariant
            i <= v@.len(),
            elems@.len() == i,
            forall|t: int| 0 <= t < i ==> jview(#[trigger] elems@[t]) == spec_agent_jval(v@[t]),
        decreases v@.len() - i,
    {
        elems.push(agent_to_json(&v[i]));
        i += 1;
    }
    let r = Json::Arr(elems);
    proof {
        crate::codec::lemma_jview_list_index(elems@, 0);
        assert(jview_list(elems@) =~= v@.map_values(|a: Agent| spec_agent_jval(a))) by {
            assert forall|t: int| 0 <= t < v@.len() implies jview_list(elems@)[t] == v@.map_values(
                |a: Agent| spec_agent_jval(a),
            )[t] by {
                crate::codec::lemma_jview_list_index(elems@, t);
            }
        }
    }
    r
}

/// The agents of a window from a shaped document tree.
fn json_to_agents(j: &Json) -> (r: Option<Vec<Agent>>)
    ensures
        match r {
            Some(v) => jview(*j) == JVal::Arr(v@.map_values(|a: Agent| spec_agent_jval(a)))
                && jval_is_agent_arr(jview(*j)),
            None => !jval_is_agent_arr(jview(*j)),
        },
{
    let elems = match j {
        Json::Arr(elems) => elems,
        _ => {
            return None;
        },
    };
    let mut out: Vec<Agent> = Vec::new();
    let mut i: usize = 0;
    while i < elems.len()
        invariant
            i <= elems@.len(),
            out@.len() == i,
            jview(*j) == JVal::Arr(jview_list(elems@)),
            forall|t: int|
                0 <= t < i ==> jview_list(elems@)[t] == spec_agent_jval(#[trigger] out@[t])
                    && jval_is_agent(jview_list(elems@)[t]),
        decreases elems@.len() - i,
    {
        proof {
            crate::codec::lemma_jview_list_index(elems@, i as int);
        }
        match json_to_agent(&elems[i]) {
            Some(a) => {
                out.push(a);
            },
            None => {
                proof {
                    crate::codec::lemma_jview_list_index(elems@, 0);
                    if jval_is_agent_arr(jview(*j)) {
                        assert(all_agents_shaped(jview_list(elems@)));
                        assert(jview_list(elems@).len() == elems@.len());
                        assert(jval_is_agent(jview_list(elems@)[i as int]));
                    }
                }
                return None;
            },
        }
        i += 1;
    }
    proof {
        crate::codec::lemma_jview_list_index(elems@, 0);
        assert(jview_list(elems@) =~= out@.map_values(|a: Agent| spec_agent_jval(a)));
    }
    Some(out)
}

/// A window as a document tree.
pub fn window_to_json(w: &crate::entities::Window) -> (r: Json)
    ensures
        jview(r) == spec_window_jval(*w),
{
    let mut props: Vec<(String, Json)> = Vec::new();
    props.push((String::from_str("id"), Json::Str(w.id.clone())));
    props.push((String::from_str("name"), Json::Str(w.name.clone())));
    props.push((String::from_str("session_id"), Json::Str(w.session_id.clone())));
    props.push((String::from_str("agents"), agents_to_json(&w.agents)));
    props.push((String::from_str("project"), opt_str_to_json(&w.project)));
    props.push((String::from_str("labels"), str_list_to_json(&w.labels)));
    props.push((String::from_str("worktree_path"), opt_str_to_json(&w.worktree_path)));
    props.push((String::from_str("branch"), opt_str_to_json(&w.branch)));
    props.push((String::from_str("created_at"), i64_to_json(w.created_at)));
    let r = Json::Obj(props);
    proof {
        let target = spec_window_jval(*w)->Obj_0;
        assert(jview_props(props@) =~= target) by {
            assert forall|t: int| 0 <= t < 9 implies jview_props(props@)[t] == target[t] by {
                crate::codec::lemma_jview_props_index(props@, t);
            }
            crate::codec::lemma_jview_props_index(props@, 0);
        }
    }
    r
}

/// A window from a shaped document tree.
pub fn json_to_window(j: &Json) -> (r: Option<crate::entities::Window>)
    ensures
        match r {
            Some(w) => jview(*j) == spec_window_jval(w) && jval_is_window(jview(*j)),
            None => !jval_is_window(jview(*j)),
        },
{
    let props = match j {
        Json::Obj(props) => props,
        _ => {
            return None;
        },
    };
    proof {
        crate::codec::lemma_jview_props_index(props@, 0);
    }
    if props.len() != 9 {
        return None;
    }
    proof {
        assert forall|t: int| 0 <= t < 9 implies jview_props(props@)[t] == (
        props@[t].0@,
        jview(props@[t].1),
        ) by {
            crate::codec::lemma_jview_props_index(props@, t);
        }
    }
    if !(str_eq(props[0].0.as_str(), "id") && str_eq(props[1].0.as_str(), "name") && str_eq(
        props[2].0.as_str(),
        "session_id",
    ) && str_eq(props[3].0.as_str(), "agents") && str_eq(props[4].0.as_str(), "project")
        && str_eq(props[5].0.as_str(), "labels") && str_eq(props[6].0.as_str(), "worktree_path")
        && str_eq(props[7].0.as_str(), "branch") && str_eq(props[8].0.as_str(), "created_at")) {
        return None;
    }
    let id = match &props[0].1 {
        Json::Str(s) => s.clone(),
        _ => {
            return None;
        },
    };
    let name = match &props[1].1 {
        Json::Str(s) => s.clone(),
        _ => {
            return None;
        },
    };
    let session_id = match &props[2].1 {
        Json::Str(s) => s.clone(),
        _ => {
            return None;
        },
    };
    let agents = match json_to_agents(&props[3].1) {
        Some(v) => v,
        None => {
            return None;
        },
    };
    let project = match json_to_opt_str(&props[4].1) {
        Some(o) => o,
        None => {
            return None;
        },
    };
    let labels = match json_to_str_list(&props[5].1) {
        Some(v) => v,
        None => {
            return None;
        },
    };
    let worktree_path = match json_to_opt_str(&props[6].1) {
        Some(o) => o,
        None => {
            return None;
        },
    };
    let branch = match json_to_opt_str(&props[7].1) {
        Some(o) => o,
        None => {
            return None;
        },
    };
    let created_at = match json_to_i64(&props[8].1) {
        Some(t) => t,
        None => {
            return None;
        },
    };
    let w = crate::entities::Window {
        id,
        name,
        session_id,
        agents,
        project,
        labels,
        worktree_path,
        branch,
        created_at,
    };
    proof {
        assert(jview(*j) =~= spec_window_jval(w)) by {
            assert(jview_props(props@) =~= spec_window_jval(w)->Obj_0);
        }
    }
    Some(w)
}

/// The document a session persists as.
pub open spec fn spec_session_jval(s: crate::entities::BunshinSession) -> JVal {
    JVal::Obj(
        seq![
            ("id"@, JVal::Str(s.id@)),
            ("name"@, JVal::Str(s.name@)),
            (
                "windows"@,
                JVal::Arr(
                    s.windows@.map_values(|w: crate::entities::Window| spec_window_jval(w)),
                ),
            ),
            ("created_at"@, jval_of_i64(s.created_at)),
            ("last_accessed"@, jval_of_i64(s.last_accessed)),
            ("is_active"@, JVal::Bool(s.is_active)),
        ],
    )
}

/// What the decoder accepts as a session.
pub open spec fn jval_is_session(v: JVal) -> bool {
    &&& v matches JVal::Obj(p)
    &&& p.len() == 6
    &&& p[0].0 == "id"@ && p[0].1 is Str
    &&& p[1].0 == "name"@ && p[1].1 is Str
    &&& p[2].0 == "windows"@ && jval_is_window_arr(p[2].1)
    &&& p[3].0 == "created_at"@ && jval_is_i64(p[3].1)
    &&& p[4].0 == "last_accessed"@ && jval_is_i64(p[4].1)
    &&& p[5].0 == "is_active"@ && p[5].1 is Bool
}


/// Whether every element is window-shaped.
pub open spec fn all_windows_shaped(elems: Seq<JVal>) -> bool {
    forall|t: int| 0 <= t < elems.len() ==> jval_is_window(#[trigger] elems[t])
}

/// What the decoder accepts as an array of windows.
pub open spec fn jval_is_window_arr(v: JVal) -> bool {
    v matches JVal::Arr(elems) && all_windows_shaped(elems)
}

/// The windows of a session as a document tree.
fn windows_to_json(v: &Vec<crate::entities::Window>) -> (r: Json)
    ensures
        jview(r) == JVal::Arr(
            v@.map_values(|w: crate::entities::Window| spec_window_jval(w)),
        ),
{
    let mut elems: Vec<Json> = Vec::new();
    let mut i: usize = 0;
    while i < v.len()
        invariant
            i <= v@.len(),
            elems@.len() == i,
            forall|t: int| 0 <= t < i ==> jview(#[trigger] elems@[t]) == spec_window_jval(v@[t]),
        decreases v@.len() - i,
    {
        elems.push(window_to_json(&v[i]));
        i += 1;
    }
    let r = Json::Arr(elems);
    proof {
        crate::codec::lemma_jview_list_index(elems@, 0);
        assert(jview_list(elems@) =~= v@.map_values(
            |w: crate::entities::Window| spec_window_jval(w),
        )) by {
            assert forall|t: int| 0 <= t < v@.len() implies jview_list(elems@)[t] == v@.map_values(
                |w: crate::entities::Window| spec_window_jval(w),
            )[t] by {
                crate::codec::lemma_jview_list_index(elems@, t);
            }
        }
    }
    r
}

/// The windows of a session from a shaped document tree.
fn json_to_windows(j: &Json) -> (r: Option<Vec<crate::entities::Window>>)
    ensures
        match r {
            Some(v) => jview(*j) == JVal::Arr(
                v@.map_values(|w: crate::entities::Window| spec_window_jval(w)),
            ) && jval_is_window_arr(jview(*j)),
            None => !jval_is_window_arr(jview(*j)),
        },
{
    let elems = match j {
        Json::Arr(elems) => elems,
        _ => {
            return None;
        },
    };
    let mut out: Vec<crate::entities::Window> = Vec::new();
    let mut i: usize = 0;
    while i < elems.len()
        invariant
            i <= elems@.len(),
            out@.len() == i,
            jview(*j) == JVal::Arr(jview_list(elems@)),
            forall|t: int|
                0 <= t < i ==> jview_list(elems@)[t] == spec_window_jval(#[trigger] out@[t])
                    && jval_is_window(jview_list(elems@)[t]),
        decreases elems@.len() - i,
    {
        proof {
            crate::codec::lemma_jview_list_index(elems@, i as int);
        }
        match json_to_window(&elems[i]) {
            Some(w) => {
                out.push(w);
            },
            None => {
                proof {
                    crate::codec::lemma_jview_list_index(elems@, 0);
                    if jval_is_window_arr(jview(*j)) {
                        assert(all_windows_shaped(jview_list(elems@)));
                        assert(jview_list(elems@).len() == elems@.len());
                        assert(jval_is_window(jview_list(elems@)[i as int]));
                    }
                }
                return None;
            },
        }
        i += 1;
    }
    proof {
        crate::codec::lemma_jview_list_index(elems@, 0);
        assert(jview_list(elems@) =~= out@.map_values(
            |w: crate::entities::Window| spec_window_jval(w),
        ));
    }
    Some(out)
}

/// A session as a document tree.
pub fn session_to_json(s: &crate::entities::BunshinSession) -> (r: Json)
    ensures
        jview(r) == spec_session_jval(*s),
{
    let mut props: Vec<(String, Json)> = Vec::new();
    props.push((String::from_str("id"), Json::Str(s.id.clone())));
    props.push((String::from_str("name"), Json::Str(s.name.clone())));
    props.push((String::from_str("windows"), windows_to_json(&s.windows)));
    props.push((String::from_str("created_at"), i64_to_json(s.created_at)));
    props.push((String::from_str("last_accessed"), i64_to_json(s.last_accessed)));
    props.push((String::from_str("is_active"), Json::Bool(s.is_active)));
    let r = Json::Obj(props);
    proof {
        let target = spec_session_jval(*s)->Obj_0;
        assert(jview_props(props@) =~= target) by {
            assert forall|t: int| 0 <= t < 6 implies jview_props(props@)[t] == target[t] by {
                crate::codec::lemma_jview_props_index(props@, t);
            }
            crate::codec::lemma_jview_props_index(props@, 0);
        }
    }
    r
}

/// A session from a shaped document tree.
pub fn json_to_session(j: &Json) -> (r: Option<crate::entities::BunshinSession>)
    ensures
        match r {
            Some(s) => jview(*j) == spec_session_jval(s) && jval_is_session(jview(*j)),
            None => !jval_is_session(jview(*j)),
        },
{
    let props = match j {
        Json::Obj(props) => props,
        _ => {
            return None;
        },
    };
    proof {
        crate::codec::lemma_jview_props_index(props@, 0);
    }
    if props.len() != 6 {
        return None;
    }
    proof {
        assert forall|t: int| 0 <= t < 6 implies jview_props(props@)[t] == (
        props@[t].0@,
        jview(props@[t].1),
        ) by {
            crate::codec::lemma_jview_props_index(props@, t);
        }
    }
    if !(str_eq(props[0].0.as_str(), "id") && str_eq(props[1].0.as_str(), "name") && str_eq(
        props[2].0.as_str(),
        "windows",
    ) && str_eq(props[3].0.as_str(), "created_at") && str_eq(
        props[4].0.as_str(),
        "last_accessed",
    ) && str_eq(props[5].0.as_str(), "is_active")) {
        return None;
    }
    let id = match &props[0].1 {
        Json::Str(s) => s.clone(),
        _ => {
            return None;
        },
    };
    let name = match &props[1].1 {
        Json::Str(s) => s.clone(),
        _ => {
            return None;
        },
    };
    let windows = match json_to_windows(&props[2].1) {
        Some(v) => v,
        None => {
            return None;
        },
    };
    let created_at = match json_to_i64(&props[3].1) {
        Some(t) => t,
        None => {
            return None;
        },
    };
    let last_accessed = match json_to_i64(&props[4].1) {
        Some(t) => t,
        None => {
            return None;
        },
    };
    let is_active = match &props[5].1 {
        Json::Bool(b) => *b,
        _ => {
            return None;
        },
    };
    let s = crate::entities::BunshinSession { id, name, windows, created_at, last_accessed, is_active };
    proof {
        assert(jview(*j) =~= spec_session_jval(s)) by {
            assert(jview_props(props@) =~= spec_session_jval(s)->Obj_0);
        }
    }
    Some(s)
}

/// The document a project persists as.
pub open spec fn spec_project_jval(p: crate::entities::Project) -> JVal {
    JVal::Obj(
        seq![
            ("name"@, JVal::Str(p.name@)),
            ("description"@, jval_of_opt_str(p.description)),
            ("repository"@, jval_of_opt_str(p.repository)),
            ("labels"@, jval_of_str_list(p.labels@)),
            ("created_at"@, jval_of_i64(p.created_at)),
        ],
    )
}

/// What the decoder accepts as a project.
pub open spec fn jval_is_project(v: JVal) -> bool {
    &&& v matches JVal::Obj(p)
    &&& p.len() == 5
    &&& p[0].0 == "name"@ && p[0].1 is Str
    &&& p[1].0 == "description"@ && jval_is_opt_str(p[1].1)
    &&& p[2].0 == "repository"@ && jval_is_opt_str(p[2].1)
    &&& p[3].0 == "labels"@ && jval_is_str_list(p[3].1)
    &&& p[4].0 == "created_at"@ && jval_is_i64(p[4].1)
}

/// A project as a document tree.
pub fn project_to_json(p: &crate::entities::Project) -> (r: Json)
    ensures
        jview(r) == spec_project_jval(*p),
{
    let mut props: Vec<(String, Json)> = Vec::new();
    props.push((String::from_str("name"), Json::Str(p.name.clone())));
    props.push((String::from_str("description"), opt_str_to_json(&p.description)));
    props.push((String::from_str("repository"), opt_str_to_json(&p.repository)));
    props.push((String::from_str("labels"), str_list_to_json(&p.labels)));
    props.push((String::from_str("created_at"), i64_to_json(p.created_at)));
    let r = Json::Obj(props);
    proof {
        let target = spec_project_jval(*p)->Obj_0;
        assert(jview_props(props@) =~= target) by {
            assert forall|t: int| 0 <= t < 5 implies jview_props(props@)[t] == target[t] by {
                crate::codec::lemma_jview_props_index(props@, t);
            }
            crate::codec::lemma_jview_props_index(props@, 0);
        }
    }
    r
}

/// A project from a shaped document tree.
pub fn json_to_project(j: &Json) -> (r: Option<crate::entities::Project>)
    ensures
        match r {
            Some(p) => jview(*j) == spec_project_jval(p) && jval_is_project(jview(*j)),
            None => !jval_is_project(jview(*j)),
        },
{
    let props = match j {
        Json::Obj(props) => props,
        _ => {
            return None;
        },
    };
    proof {
        crate::codec::lemma_jview_props_index(props@, 0);
    }
    if props.len() != 5 {
        return None;
    }
    proof {
        assert forall|t: int| 0 <= t < 5 implies jview_props(props@)[t] == (
        props@[t].0@,
        jview(props@[t].1),
        ) by {
            crate::codec::lemma_jview_props_index(props@, t);
        }
    }
    if !(str_eq(props[0].0.as_str(), "name") && str_eq(props[1].0.as_str(), "description")
        && str_eq(props[2].0.as_str(), "repository") && str_eq(props[3].0.as_str(), "labels")
        && str_eq(props[4].0.as_str(), "created_at")) {
        return None;
    }
    let name = match &props[0].1 {
        Json::Str(s) => s.clone(),
        _ => {
            return None;
        },
    };
    let description = match json_to_opt_str(&props[1].1) {
        Some(o) => o,
        None => {
            return None;
        },
    };
    let repository = match json_to_opt_str(&props[2].1) {
        Some(o) => o,
        None => {
            return None;
        },
    };
    let labels = match json_to_str_list(&props[3].1) {
        Some(v) => v,
        None => {
            return None;
        },
    };
    let created_at = match json_to_i64(&props[4].1) {
        Some(t) => t,
        None => {
            return None;
        },
    };
    let p = crate::entities::Project { name, description, repository, labels, created_at };
    proof {
        assert(jview(*j) =~= spec_project_jval(p)) by {
            assert(jview_props(props@) =~= spec_project_jval(p)->Obj_0);
        }
    }
    Some(p)
}


/// A keyed session entry: the key repeats the session's identifier.
pub open spec fn session_entry_shaped(pair: (Seq<char>, JVal)) -> bool {
    jval_is_session(pair.1) && pair.0 == pair.1->Obj_0[0].1->Str_0
}

/// Whether every member is a keyed session entry.
pub open spec fn all_session_entries_shaped(p: Seq<(Seq<char>, JVal)>) -> bool {
    forall|t: int| 0 <= t < p.len() ==> session_entry_shaped(#[trigger] p[t])
}

/// A keyed project entry: the key repeats the project's name.
pub open spec fn project_entry_shaped(pair: (Seq<char>, JVal)) -> bool {
    jval_is_project(pair.1) && pair.0 == pair.1->Obj_0[0].1->Str_0
}

/// Whether every member is a keyed project entry.
pub open spec fn all_project_entries_shaped(p: Seq<(Seq<char>, JVal)>) -> bool {
    forall|t: int| 0 <= t < p.len() ==> project_entry_shaped(#[trigger] p[t])
}

/// The document the whole registry persists as: sessions keyed by
/// identifier and projects keyed by name; the transient context is not
/// persisted.
pub open spec fn spec_mgr_jval(m: crate::registry::BunshinManager) -> JVal {
    JVal::Obj(
        seq![
            (
                "sessions"@,
                JVal::Obj(
                    m.sessions@.map_values(
                        |s: crate::entities::BunshinSession| (s.id@, spec_session_jval(s)),
                    ),
                ),
            ),
            (
                "projects"@,
                JVal::Obj(
                    m.projects@.map_values(
                        |p: crate::entities::Project| (p.name@, spec_project_jval(p)),
                    ),
                ),
            ),
        ],
    )
}

/// What the decoder accepts as a registry document.
pub open spec fn jval_is_manager(v: JVal) -> bool {
    &&& v matches JVal::Obj(p)
    &&& p.len() == 2
    &&& p[0].0 == "sessions"@ && (p[0].1 matches JVal::Obj(sp) && all_session_entries_shaped(sp))
    &&& p[1].0 == "projects"@ && (p[1].1 matches JVal::Obj(pp) && all_project_entries_shaped(pp))
}

/// The whole registry as a document tree.
pub fn manager_to_json(m: &crate::registry::BunshinManager) -> (r: Json)
    ensures
        jview(r) == spec_mgr_jval(*m),
{
    let mut sess: Vec<(String, Json)> = Vec::new();
    let mut i: usize = 0;
    while i < m.sessions.len()
        invariant
            i <= m.sessions@.len(),
            sess@.len() == i,
            forall|t: int|
                0 <= t < i ==> (#[trigger] sess@[t]).0@ == m.sessions@[t].id@ && jview(
                    sess@[t].1,
                ) == spec_session_jval(m.sessions@[t]),
        decreases m.sessions@.len() - i,
    {
        sess.push((m.sessions[i].id.clone(), session_to_json(&m.sessions[i])));
        i += 1;
    }
    let mut projs: Vec<(String, Json)> = Vec::new();
    let mut k: usize = 0;
    while k < m.projects.len()
        invariant
            k <= m.projects@.len(),
            projs@.len() == k,
            forall|t: int|
                0 <= t < k ==> (#[trigger] projs@[t]).0@ == m.projects@[t].name@ && jview(
                    projs@[t].1,
                ) == spec_project_jval(m.projects@[t]),
        decreases m.projects@.len() - k,
    {
        projs.push((m.projects[k].name.clone(), project_to_json(&m.projects[k])));
        k += 1;
    }
    let mut props: Vec<(String, Json)> = Vec::new();
    props.push((String::from_str("sessions"), Json::Obj(sess)));
    props.push((String::from_str("projects"), Json::Obj(projs)));
    let r = Json::Obj(props);
    proof {
        let starget = m.sessions@.map_values(
            |s: crate::entities::BunshinSession| (s.id@, spec_session_jval(s)),
        );
        assert(jview_props(sess@) =~= starget) by {
            assert forall|t: int| 0 <= t < sess@.len() implies jview_props(sess@)[t] == starget[t]
                by {
                crate::codec::lemma_jview_props_index(sess@, t);
            }
            crate::codec::lemma_jview_props_index(sess@, 0);
        }
        let ptarget = m.projects@.map_values(
            |p: crate::entities::Project| (p.name@, spec_project_jval(p)),
        );
        assert(jview_props(projs@) =~= ptarget) by {
            assert forall|t: int| 0 <= t < projs@.len() implies jview_props(projs@)[t]
                == ptarget[t] by {
                crate::codec::lemma_jview_props_index(projs@, t);
            }
            crate::codec::lemma_jview_props_index(projs@, 0);
        }
        let target = spec_mgr_jval(*m)->Obj_0;
        assert(jview_props(props@) =~= target) by {
            assert forall|t: int| 0 <= t < 2 implies jview_props(props@)[t] == target[t] by {
                crate::codec::lemma_jview_props_index(props@, t);
            }
            crate::codec::lemma_jview_props_index(props@, 0);
        }
    }
    r
}

/// The registry from a shaped document tree; the context starts empty.
pub fn json_to_manager(j: &Json) -> (r: Option<crate::registry::BunshinManager>)
    ensures
        match r {
            Some(m) => jview(*j) == spec_mgr_jval(m) && jval_is_manager(jview(*j))
                && m.current_session_id is None && m.current_window_id is None,
            None => !jval_is_manager(jview(*j)),
        },
{
    let props = match j {
        Json::Obj(props) => props,
        _ => {
            return None;
        },
    };
    proof {
        crate::codec::lemma_jview_props_index(props@, 0);
    }
    if props.len() != 2 {
        return None;
    }
    proof {
        assert forall|t: int| 0 <= t < 2 implies jview_props(props@)[t] == (
        props@[t].0@,
        jview(props@[t].1),
        ) by {
            crate::codec::lemma_jview_props_index(props@, t);
        }
    }
    if !(str_eq(props[0].0.as_str(), "sessions") && str_eq(props[1].0.as_str(), "projects")) {
        return None;
    }
    let sess_props = match &props[0].1 {
        Json::Obj(sp) => sp,
        _ => {
            return None;
        },
    };
    let proj_props = match &props[1].1 {
        Json::Obj(pp) => pp,
        _ => {
            return None;
        },
    };
    let mut sessions: Vec<crate::entities::BunshinSession> = Vec::new();
    let mut i: usize = 0;
    while i < sess_props.len()
        invariant
            i <= sess_props@.len(),
            sessions@.len() == i,
            props@.len() == 2,
            jview(*j) == JVal::Obj(jview_props(props@)),
            jview_props(props@)[0] == ("sessions"@, jview(props@[0].1)),
            jview_props(props@)[1] == ("projects"@, jview(props@[1].1)),
            jview(props@[0].1) == JVal::Obj(jview_props(sess_props@)),
            forall|t: int|
                0 <= t < i ==> jview_props(sess_props@)[t] == (
                    (#[trigger] sessions@[t]).id@,
                    spec_session_jval(sessions@[t]),
                ) && session_entry_shaped(jview_props(sess_props@)[t]),
        decreases sess_props@.len() - i,
    {
        proof {
            crate::codec::lemma_jview_props_index(sess_props@, i as int);
        }
        match json_to_session(&sess_props[i].1) {
            Some(s) => {
                if !str_eq(sess_props[i].0.as_str(), s.id.as_str()) {
                    proof {
                        crate::codec::lemma_jview_props_index(sess_props@, 0);
                        if all_session_entries_shaped(jview_props(sess_props@)) {
                            assert(session_entry_shaped(jview_props(sess_props@)[i as int]));
                        }
                    }
                    return None;
                }
                sessions.push(s);
            },
            None => {
                proof {
                    crate::codec::lemma_jview_props_index(sess_props@, 0);
                    if all_session_entries_shaped(jview_props(sess_props@)) {
                        assert(session_entry_shaped(jview_props(sess_props@)[i as int]));
                    }
                }
                return None;
            },
        }
        i += 1;
    }
    let mut projects: Vec<crate::entities::Project> = Vec::new();
    let mut k: usize = 0;
    while k < proj_props.len()
        invariant
            k <= proj_props@.len(),
            projects@.len() == k,
            props@.len() == 2,
            jview(*j) == JVal::Obj(jview_props(props@)),
            jview_props(props@)[0] == ("sessions"@, jview(props@[0].1)),
            jview_props(props@)[1] == ("projects"@, jview(props@[1].1)),
            jview(props@[1].1) == JVal::Obj(jview_props(proj_props@)),
            forall|t: int|
                0 <= t < k ==> jview_props(proj_props@)[t] == (
                    (#[trigger] projects@[t]).name@,
                    spec_project_jval(projects@[t]),
                ) && project_entry_shaped(jview_props(proj_props@)[t]),
        decreases proj_props@.len() - k,
    {
        proof {
            crate::codec::lemma_jview_props_index(proj_props@, k as int);
        }
        match json_to_project(&proj_props[k].1) {
            Some(p) => {
                if !str_eq(proj_props[k].0.as_str(), p.name.as_str()) {
                    proof {
                        crate::codec::lemma_jview_props_index(proj_props@, 0);
                        if all_project_entries_shaped(jview_props(proj_props@)) {
                            assert(project_entry_shaped(jview_props(proj_props@)[k as int]));
                        }
                    }
                    return None;
                }
                projects.push(p);
            },
            None => {
                proof {
                    crate::codec::lemma_jview_props_index(proj_props@, 0);
                    if all_project_entries_shaped(jview_props(proj_props@)) {
                        assert(project_entry_shaped(jview_props(proj_props@)[k as int]));
                    }
                }
                return None;
            },
        }
        k += 1;
    }
    let m = crate::registry::BunshinManager {
        sessions,
        projects,
        current_session_id: None,
        current_window_id: None,
    };
    proof {
        crate::codec::lemma_jview_props_index(sess_props@, 0);
        crate::codec::lemma_jview_props_index(proj_props@, 0);
        assert(jview_props(sess_props@) =~= m.sessions@.map_values(
            |s: crate::entities::BunshinSession| (s.id@, spec_session_jval(s)),
        ));
        assert(jview_props(proj_props@) =~= m.projects@.map_values(
            |p: crate::entities::Project| (p.name@, spec_project_jval(p)),
        ));
        assert(jview(*j) =~= spec_mgr_jval(m)) by {
            assert(jview_props(props@) =~= spec_mgr_jval(m)->Obj_0);
        }
        assert(jval_is_manager(jview(*j))) by {
            assert(all_session_entries_shaped(jview_props(sess_props@)));
            assert(all_project_entries_shaped(jview_props(proj_props@)));
        }
    }
    Some(m)
}

/// The registry as its persisted text.
pub fn save_registry(m: &crate::registry::BunshinManager) -> (r: String)
    ensures
        r@ == crate::codec::enc_jval(spec_mgr_jval(*m)),
{
    let doc = manager_to_json(m);
    crate::codec::encode_json(&doc)
}

/// The registry from the persisted file's content: an absent file yields an
/// empty registry, and a file that is not a canonical registry document is
/// rejected loudly.
pub fn load_registry(content: Option<&str>) -> (r: Result<
    crate::registry::BunshinManager,
    crate::errors::OrchestratorError,
>)
    requires
        content matches Some(s) ==> s@.len() < usize::MAX,
    ensures
        match content {
            None => (r matches Ok(m) && m.sessions@ == Seq::<
                crate::entities::BunshinSession,
            >::empty() && m.projects@ == Seq::<crate::entities::Project>::empty()
                && m.current_session_id is None && m.current_window_id is None && m.wf()),
            Some(text) => match r {
                Ok(m) => {
                    &&& crate::codec::sparse_jval(text@, 0, (text@.len() + 1) as nat) == Some((
                        spec_mgr_jval(m),
                        text@.len() as int,
                    ))
                    &&& m.current_session_id is None
                    &&& m.current_window_id is None
                    &&& m.wf()
                },
                Err(e) => {
                    &&& e matches crate::errors::OrchestratorError::IoError(_)
                    &&& (match crate::codec::sparse_jval(text@, 0, (text@.len() + 1) as nat) {
                        Some(t) => t.1 != text@.len() || !jval_is_manager(t.0) || (exists|
                            m2: crate::registry::BunshinManager,
                        |
                            #[trigger] spec_mgr_jval(m2) == t.0 && !m2.wf()),
                        None => true,
                    })
                },
            },
        },
{
    match content {
        None => Ok(crate::registry::BunshinManager::new()),
        Some(text) => {
            match crate::codec::decode_json(text) {
                Some(doc) => match json_to_manager(&doc) {
                    Some(m) => {
                        if m.check_wf() {
                            Ok(m)
                        } else {
                            proof {
                                assert(spec_mgr_jval(m) == crate::codec::jview(doc));
                            }
                            Err(
                                crate::errors::OrchestratorError::IoError(
                                    String::from_str(
                                        "persisted state repeats an identifier",
                                    ),
                                ),
                            )
                        }
                    },
                    None => Err(
                        crate::errors::OrchestratorError::IoError(
                            String::from_str("persisted state is not a registry document"),
                        ),
                    ),
                },
                None => Err(
                    crate::errors::OrchestratorError::IoError(
                        String::from_str("persisted state is not well-formed"),
                    ),
                ),
            }
        },
    }
}


/// Every element well-formed makes the list well-formed.
proof fn lemma_jlist_wf_all(s: Seq<JVal>)
    requires
        forall|t: int| 0 <= t < s.len() ==> crate::codec::jval_wf(#[trigger] s[t]),
    ensures
        crate::codec::jlist_wf(s),
    decreases s.len(),
{
    if s.len() > 0 {
        assert(forall|t: int|
            0 <= t < s.drop_first().len() ==> crate::codec::jval_wf(
                #[trigger] s.drop_first()[t],
            ));
        lemma_jlist_wf_all(s.drop_first());
    }
}

/// Every member's value well-formed makes the members well-formed.
proof fn lemma_jprops_wf_all(s: Seq<(Seq<char>, JVal)>)
    requires
        forall|t: int| 0 <= t < s.len() ==> crate::codec::jval_wf((#[trigger] s[t]).1),
    ensures
        crate::codec::jprops_wf(s),
    decreases s.len(),
{
    if s.len() > 0 {
        assert(forall|t: int|
            0 <= t < s.drop_first().len() ==> crate::codec::jval_wf(
                (#[trigger] s.drop_first()[t]).1,
            ));
        lemma_jprops_wf_all(s.drop_first());
    }
}

/// The documents of the scalar encoders are well-formed and shaped.
proof fn lemma_scalar_jvals(
    o: Option<String>,
    t: i64,
    n: u64,
    p: Option<u32>,
    u: Option<i64>,
    v: Seq<String>,
    m: AgentModel,
    st: AgentState,
)
    ensures
        crate::codec::jval_wf(jval_of_opt_str(o)) && jval_is_opt_str(jval_of_opt_str(o)),
        crate::codec::jval_wf(jval_of_i64(t)) && jval_is_i64(jval_of_i64(t)),
        crate::codec::jval_wf(jval_of_u64(n)) && jval_is_u64(jval_of_u64(n)),
        crate::codec::jval_wf(jval_of_opt_u32(p)) && jval_is_opt_u32(jval_of_opt_u32(p)),
        crate::codec::jval_wf(jval_of_opt_i64(u)) && jval_is_opt_i64(jval_of_opt_i64(u)),
        crate::codec::jval_wf(jval_of_str_list(v)) && jval_is_str_list(jval_of_str_list(v)),
        crate::codec::jval_wf(jval_of_model(m)) && jval_is_model(jval_of_model(m)),
        crate::codec::jval_wf(jval_of_state(st)) && jval_is_state(jval_of_state(st)),
{
    let lst = v.map_values(|s: String| JVal::Str(s@));
    assert(forall|x: int| 0 <= x < lst.len() ==> crate::codec::jval_wf(#[trigger] lst[x]));
    lemma_jlist_wf_all(lst);
    assert(forall|x: int| 0 <= x < lst.len() ==> (#[trigger] lst[x]) is Str);
    match m {
        AgentModel::Custom(name) => {
            lemma_jprops_wf_all(seq![("Custom"@, JVal::Str(name@))]);
        },
        _ => {},
    }
    match st {
        AgentState::Error(reason) => {
            lemma_jprops_wf_all(seq![("Error"@, JVal::Str(reason@))]);
        },
        _ => {},
    }
}

/// An agent's document is well-formed and shaped.
proof fn lemma_agent_jval_good(a: Agent)
    ensures
        crate::codec::jval_wf(spec_agent_jval(a)),
        jval_is_agent(spec_agent_jval(a)),
{
    lemma_scalar_jvals(
        a.project,
        a.created_at,
        a.tokens_used,
        a.pid,
        a.uptime_start,
        a.labels@,
        a.model,
        a.state,
    );
    lemma_scalar_jvals(
        a.task_description,
        a.last_activity,
        a.estimated_cost,
        a.pid,
        a.uptime_start,
        a.tools@,
        a.model,
        a.state,
    );
    lemma_scalar_jvals(
        a.artifacts_path,
        a.created_at,
        a.tokens_used,
        a.pid,
        a.uptime_start,
        a.labels@,
        a.model,
        a.state,
    );
    let p = spec_agent_jval(a)->Obj_0;
    assert(crate::codec::jprops_wf(p)) by {
        assert(forall|t: int| 0 <= t < p.len() ==> crate::codec::jval_wf((#[trigger] p[t]).1));
        lemma_jprops_wf_all(p);
    }
}

/// A window's document is well-formed and shaped.
proof fn lemma_window_jval_good(w: crate::entities::Window)
    ensures
        crate::codec::jval_wf(spec_window_jval(w)),
        jval_is_window(spec_window_jval(w)),
{
    lemma_scalar_jvals(
        w.project,
        w.created_at,
        0,
        None,
        None,
        w.labels@,
        AgentModel::AssistantCli,
        AgentState::Stopped,
    );
    lemma_scalar_jvals(
        w.worktree_path,
        w.created_at,
        0,
        None,
        None,
        w.labels@,
        AgentModel::AssistantCli,
        AgentState::Stopped,
    );
    lemma_scalar_jvals(
        w.branch,
        w.created_at,
        0,
        None,
        None,
        w.labels@,
        AgentModel::AssistantCli,
        AgentState::Stopped,
    );
    let agents = w.agents@.map_values(|a: Agent| spec_agent_jval(a));
    assert forall|t: int| 0 <= t < agents.len() implies crate::codec::jval_wf(
        #[trigger] agents[t],
    ) && jval_is_agent(agents[t]) by {
        lemma_agent_jval_good(w.agents@[t]);
    }
    lemma_jlist_wf_all(agents);
    assert(all_agents_shaped(agents));
    let p = spec_window_jval(w)->Obj_0;
    assert(crate::codec::jprops_wf(p)) by {
        assert(forall|t: int| 0 <= t < p.len() ==> crate::codec::jval_wf((#[trigger] p[t]).1));
        lemma_jprops_wf_all(p);
    }
}

/// A session's document is well-formed and shaped.
proof fn lemma_session_jval_good(s: crate::entities::BunshinSession)
    ensures
        crate::codec::jval_wf(spec_session_jval(s)),
        jval_is_session(spec_session_jval(s)),
{
    lemma_scalar_jvals(
        None,
        s.created_at,
        0,
        None,
        None,
        Seq::empty(),
        AgentModel::AssistantCli,
        AgentState::Stopped,
    );
    lemma_scalar_jvals(
        None,
        s.last_accessed,
        0,
        None,
        None,
        Seq::empty(),
        AgentModel::AssistantCli,
        AgentState::Stopped,
    );
    let windows = s.windows@.map_values(|w: crate::entities::Window| spec_window_jval(w));
    assert forall|t: int| 0 <= t < windows.len() implies crate::codec::jval_wf(
        #[trigger] windows[t],
    ) && jval_is_window(windows[t]) by {
        lemma_window_jval_good(s.windows@[t]);
    }
    lemma_jlist_wf_all(windows);
    assert(all_windows_shaped(windows));
    let p = spec_session_jval(s)->Obj_0;
    assert(crate::codec::jprops_wf(p)) by {
        assert(forall|t: int| 0 <= t < p.len() ==> crate::codec::jval_wf((#[trigger] p[t]).1));
        lemma_jprops_wf_all(p);
    }
}

/// A project's document is well-formed and shaped.
proof fn lemma_project_jval_good(pr: crate::entities::Project)
    ensures
        crate::codec::jval_wf(spec_project_jval(pr)),
        jval_is_project(spec_project_jval(pr)),
{
    lemma_scalar_jvals(
        pr.description,
        pr.created_at,
        0,
        None,
        None,
        pr.labels@,
        AgentModel::AssistantCli,
        AgentState::Stopped,
    );
    lemma_scalar_jvals(
        pr.repository,
        pr.created_at,
        0,
        None,
        None,
        pr.labels@,
        AgentModel::AssistantCli,
        AgentState::Stopped,
    );
    let p = spec_project_jval(pr)->Obj_0;
    assert(crate::codec::jprops_wf(p)) by {
        assert(forall|t: int| 0 <= t < p.len() ==> crate::codec::jval_wf((#[trigger] p[t]).1));
        lemma_jprops_wf_all(p);
    }
}

/// The registry's document is well-formed and shaped.
pub proof fn lemma_mgr_jval_good(m: crate::registry::BunshinManager)
    ensures
        crate::codec::jval_wf(spec_mgr_jval(m)),
        jval_is_manager(spec_mgr_jval(m)),
{
    let sess = m.sessions@.map_values(
        |s: crate::entities::BunshinSession| (s.id@, spec_session_jval(s)),
    );
    assert forall|t: int| 0 <= t < sess.len() implies crate::codec::jval_wf(
        (#[trigger] sess[t]).1,
    ) && session_entry_shaped(sess[t]) by {
        lemma_session_jval_good(m.sessions@[t]);
    }
    lemma_jprops_wf_all(sess);
    assert(all_session_entries_shaped(sess));
    let projs = m.projects@.map_values(
        |p: crate::entities::Project| (p.name@, spec_project_jval(p)),
    );
    assert forall|t: int| 0 <= t < projs.len() implies crate::codec::jval_wf(
        (#[trigger] projs[t]).1,
    ) && project_entry_shaped(projs[t]) by {
        lemma_project_jval_good(m.projects@[t]);
    }
    lemma_jprops_wf_all(projs);
    assert(all_project_entries_shaped(projs));
    let p = spec_mgr_jval(m)->Obj_0;
    assert(crate::codec::jprops_wf(p)) by {
        assert(forall|t: int| 0 <= t < p.len() ==> crate::codec::jval_wf((#[trigger] p[t]).1));
        lemma_jprops_wf_all(p);
    }
}


/// Whether two registries hold the same sessions and projects (the
/// persisted data; the transient context is not persisted).
pub open spec fn spec_same_registry_data(
    a: crate::registry::BunshinManager,
    b: crate::registry::BunshinManager,
) -> bool {
    &&& a.sessions@.len() == b.sessions@.len()
    &&& forall|i: int|
        0 <= i < a.sessions@.len() ==> crate::entities::spec_same_session(
            #[trigger] a.sessions@[i],
            b.sessions@[i],
        )
    &&& a.projects@.len() == b.projects@.len()
    &&& forall|i: int|
        0 <= i < a.projects@.len() ==> crate::entities::spec_same_project(
            #[trigger] a.projects@[i],
            b.projects@[i],
        )
}

/// Equal scalar documents come from equal scalar values.
proof fn lemma_scalar_jval_inj(m1: AgentModel, m2: AgentModel, s1: AgentState, s2: AgentState)
    ensures
        jval_of_model(m1) == jval_of_model(m2) ==> crate::entities::spec_same_model(m1, m2),
        jval_of_state(s1) == jval_of_state(s2) ==> crate::entities::spec_same_state(s1, s2),
{
    reveal_strlit("AssistantCli");
    reveal_strlit("Sonnet35");
    reveal_strlit("Haiku35");
    reveal_strlit("Gpt4o");
    reveal_strlit("Gpt4oMini");
    reveal_strlit("Starting");
    reveal_strlit("Running");
    reveal_strlit("Idle");
    reveal_strlit("Stopping");
    reveal_strlit("Stopped");
    assert("AssistantCli"@.len() == 12);
    assert("Sonnet35"@.len() == 8);
    assert("Haiku35"@.len() == 7);
    assert("Gpt4o"@.len() == 5);
    assert("Gpt4oMini"@.len() == 9);
    assert("Starting"@.len() == 8);
    assert("Running"@.len() == 7);
    assert("Idle"@.len() == 4);
    assert("Stopping"@.len() == 8);
    assert("Stopped"@.len() == 7);
    assert("Starting"@[2] == 'a');
    assert("Stopping"@[2] == 'o');
    assert("Running"@[0] == 'R');
    assert("Stopped"@[0] == 'S');
    if jval_of_model(m1) == jval_of_model(m2) {
        match (m1, m2) {
            (AgentModel::Custom(n1), AgentModel::Custom(n2)) => {
                let q1 = seq![("Custom"@, JVal::Str(n1@))];
                let q2 = seq![("Custom"@, JVal::Str(n2@))];
                assert(q1 == q2);
                assert(q1[0] == q2[0]);
                assert(n1@ == n2@);
            },
            _ => {},
        }
    }
    if jval_of_state(s1) == jval_of_state(s2) {
        match (s1, s2) {
            (AgentState::Error(r1), AgentState::Error(r2)) => {
                let q1 = seq![("Error"@, JVal::Str(r1@))];
                let q2 = seq![("Error"@, JVal::Str(r2@))];
                assert(q1 == q2);
                assert(q1[0] == q2[0]);
                assert(r1@ == r2@);
            },
            _ => {},
        }
    }
}

/// An equal agent document comes from an agent equal in every field.
proof fn lemma_agent_jval_inj(a1: Agent, a2: Agent)
    requires
        spec_agent_jval(a1) == spec_agent_jval(a2),
    ensures
        crate::entities::spec_same_agent(a1, a2),
{
    let p1 = spec_agent_jval(a1)->Obj_0;
    let p2 = spec_agent_jval(a2)->Obj_0;
    assert(p1 == p2);
    assert(p1[4] == p2[4]);
    lemma_scalar_jval_inj(a1.model, a2.model, a1.state, a2.state);
    assert(p1[5] == p2[5]);
    assert(p1[7] == p2[7]);
    assert(crate::entities::spec_same_str_seq(a1.labels@, a2.labels@)) by {
        let l1 = a1.labels@.map_values(|s: String| JVal::Str(s@));
        let l2 = a2.labels@.map_values(|s: String| JVal::Str(s@));
        assert(l1 == l2);
        assert(l1.len() == a1.labels@.len());
        assert(l2.len() == a2.labels@.len());
        assert(a1.labels@.len() == a2.labels@.len());
        assert forall|t: int| 0 <= t < a1.labels@.len() implies (#[trigger] a1.labels@[t])@ == a2.labels@[t]@ by {
            assert(l1[t] == l2[t]);
        }
    }
    assert(p1[13] == p2[13]);
    assert(crate::entities::spec_same_str_seq(a1.tools@, a2.tools@)) by {
        let l1 = a1.tools@.map_values(|s: String| JVal::Str(s@));
        let l2 = a2.tools@.map_values(|s: String| JVal::Str(s@));
        assert(l1 == l2);
        assert(l1.len() == a1.tools@.len());
        assert(l2.len() == a2.tools@.len());
        assert(a1.tools@.len() == a2.tools@.len());
        assert forall|t: int| 0 <= t < a1.tools@.len() implies (#[trigger] a1.tools@[t])@ == a2.tools@[t]@ by {
            assert(l1[t] == l2[t]);
        }
    }
    assert(p1[11] == p2[11]);
    assert(a1.uptime_start == a2.uptime_start) by {
        match (a1.uptime_start, a2.uptime_start) {
            (Some(t1), Some(t2)) => {
                assert(jval_of_i64(t1) == jval_of_i64(t2));
            },
            _ => {},
        }
    }
    assert(p1[15] == p2[15]);
    assert(p1[16] == p2[16]);
}

/// An equal window document comes from a window equal in every field.
proof fn lemma_window_jval_inj(w1: crate::entities::Window, w2: crate::entities::Window)
    requires
        spec_window_jval(w1) == spec_window_jval(w2),
    ensures
        crate::entities::spec_same_window(w1, w2),
{
    let p1 = spec_window_jval(w1)->Obj_0;
    let p2 = spec_window_jval(w2)->Obj_0;
    assert(p1 == p2);
    assert(p1[3] == p2[3]);
    let l1 = w1.agents@.map_values(|a: Agent| spec_agent_jval(a));
    let l2 = w2.agents@.map_values(|a: Agent| spec_agent_jval(a));
    assert(l1 == l2);
    assert(l1.len() == w1.agents@.len());
    assert(l2.len() == w2.agents@.len());
    assert(w1.agents@.len() == w2.agents@.len());
    assert forall|t: int| 0 <= t < w1.agents@.len() implies crate::entities::spec_same_agent(
        #[trigger] w1.agents@[t],
        w2.agents@[t],
    ) by {
        assert(l1[t] == l2[t]);
        lemma_agent_jval_inj(w1.agents@[t], w2.agents@[t]);
    }
    assert(p1[5] == p2[5]);
    assert(crate::entities::spec_same_str_seq(w1.labels@, w2.labels@)) by {
        let s1 = w1.labels@.map_values(|s: String| JVal::Str(s@));
        let s2 = w2.labels@.map_values(|s: String| JVal::Str(s@));
        assert(s1 == s2);
        assert(s1.len() == w1.labels@.len());
        assert(s2.len() == w2.labels@.len());
        assert(w1.labels@.len() == w2.labels@.len());
        assert forall|t: int| 0 <= t < w1.labels@.len() implies (#[trigger] w1.labels@[t])@ == w2.labels@[t]@ by {
            assert(s1[t] == s2[t]);
        }
    }
    assert(p1[8] == p2[8]);
}

/// An equal session document comes from a session equal in every field.
proof fn lemma_session_jval_inj(
    s1: crate::entities::BunshinSession,
    s2: crate::entities::BunshinSession,
)
    requires
        spec_session_jval(s1) == spec_session_jval(s2),
    ensures
        crate::entities::spec_same_session(s1, s2),
{
    let p1 = spec_session_jval(s1)->Obj_0;
    let p2 = spec_session_jval(s2)->Obj_0;
    assert(p1 == p2);
    assert(p1[2] == p2[2]);
    let l1 = s1.windows@.map_values(|w: crate::entities::Window| spec_window_jval(w));
    let l2 = s2.windows@.map_values(|w: crate::entities::Window| spec_window_jval(w));
    assert(l1 == l2);
    assert(l1.len() == s1.windows@.len());
    assert(l2.len() == s2.windows@.len());
    assert(s1.windows@.len() == s2.windows@.len());
    assert forall|t: int| 0 <= t < s1.windows@.len() implies crate::entities::spec_same_window(
        #[trigger] s1.windows@[t],
        s2.windows@[t],
    ) by {
        assert(l1[t] == l2[t]);
        lemma_window_jval_inj(s1.windows@[t], s2.windows@[t]);
    }
    assert(p1[3] == p2[3]);
    assert(p1[4] == p2[4]);
    assert(p1[5] == p2[5]);
}

/// An equal project document comes from a project equal in every field.
proof fn lemma_project_jval_inj(pr1: crate::entities::Project, pr2: crate::entities::Project)
    requires
        spec_project_jval(pr1) == spec_project_jval(pr2),
    ensures
        crate::entities::spec_same_project(pr1, pr2),
{
    let p1 = spec_project_jval(pr1)->Obj_0;
    let p2 = spec_project_jval(pr2)->Obj_0;
    assert(p1 == p2);
    assert(p1[3] == p2[3]);
    assert(crate::entities::spec_same_str_seq(pr1.labels@, pr2.labels@)) by {
        let s1 = pr1.labels@.map_values(|s: String| JVal::Str(s@));
        let s2 = pr2.labels@.map_values(|s: String| JVal::Str(s@));
        assert(s1 == s2);
        assert(s1.len() == pr1.labels@.len());
        assert(s2.len() == pr2.labels@.len());
        assert(pr1.labels@.len() == pr2.labels@.len());
        assert forall|t: int| 0 <= t < pr1.labels@.len() implies (#[trigger] pr1.labels@[t])@ == pr2.labels@[t]@ by {
            assert(s1[t] == s2[t]);
        }
    }
    assert(p1[4] == p2[4]);
}

/// An equal registry document comes from the same sessions and projects.
pub proof fn lemma_mgr_jval_inj(
    m1: crate::registry::BunshinManager,
    m2: crate::registry::BunshinManager,
)
    requires
        spec_mgr_jval(m1) == spec_mgr_jval(m2),
    ensures
        spec_same_registry_data(m1, m2),
{
    let p1 = spec_mgr_jval(m1)->Obj_0;
    let p2 = spec_mgr_jval(m2)->Obj_0;
    assert(p1 == p2);
    assert(p1[0] == p2[0]);
    assert(p1[1] == p2[1]);
    let s1 = m1.sessions@.map_values(
        |s: crate::entities::BunshinSession| (s.id@, spec_session_jval(s)),
    );
    let s2 = m2.sessions@.map_values(
        |s: crate::entities::BunshinSession| (s.id@, spec_session_jval(s)),
    );
    assert(s1 == s2);
    assert(s1.len() == m1.sessions@.len());
    assert(s2.len() == m2.sessions@.len());
    assert(m1.sessions@.len() == m2.sessions@.len());
    assert forall|t: int| 0 <= t < m1.sessions@.len() implies
        crate::entities::spec_same_session(#[trigger] m1.sessions@[t], m2.sessions@[t]) by {
        assert(s1[t] == s2[t]);
        lemma_session_jval_inj(m1.sessions@[t], m2.sessions@[t]);
    }
    let q1 = m1.projects@.map_values(
        |p: crate::entities::Project| (p.name@, spec_project_jval(p)),
    );
    let q2 = m2.projects@.map_values(
        |p: crate::entities::Project| (p.name@, spec_project_jval(p)),
    );
    assert(q1 == q2);
    assert(q1.len() == m1.projects@.len());
    assert(q2.len() == m2.projects@.len());
    assert(m1.projects@.len() == m2.projects@.len());
    assert forall|t: int| 0 <= t < m1.projects@.len() implies
        crate::entities::spec_same_project(#[trigger] m1.projects@[t], m2.projects@[t]) by {
        assert(q1[t] == q2[t]);
        lemma_project_jval_inj(m1.projects@[t], m2.projects@[t]);
    }
}

/// Saving and loading reproduce the registry: the saved text parses back to
/// exactly the registry's document, the loader accepts it, and any registry
/// with that document holds the same sessions and projects, all fields
/// included.
pub proof fn lemma_save_load_round_trip(m: crate::registry::BunshinManager)
    ensures
        ({
            let text = crate::codec::enc_jval(spec_mgr_jval(m));
            &&& crate::codec::sparse_jval(text, 0, (text.len() + 1) as nat) == Some((
                spec_mgr_jval(m),
                text.len() as int,
            ))
            &&& jval_is_manager(spec_mgr_jval(m))
            &&& forall|m2: crate::registry::BunshinManager|
                spec_mgr_jval(m2) == spec_mgr_jval(m) ==> #[trigger] spec_same_registry_data(
                    m,
                    m2,
                )
        }),
{
    lemma_mgr_jval_good(m);
    crate::codec::lemma_decode_encode(spec_mgr_jval(m));
    assert forall|m2: crate::registry::BunshinManager|
        spec_mgr_jval(m2) == spec_mgr_jval(m) implies #[trigger] spec_same_registry_data(
        m,
        m2,
    ) by {
        lemma_mgr_jval_inj(m, m2);
    }
}


/// The document a flat session record persists as.
pub open spec fn spec_store_session_jval(s: crate::store::Session) -> JVal {
    JVal::Obj(
        seq![
            ("name"@, JVal::Str(s.name@)),
            ("worktree_path"@, JVal::Str(s.worktree_path@)),
            ("branch"@, JVal::Str(s.branch@)),
            ("repo_path"@, JVal::Str(s.repo_path@)),
            ("assistant_pid"@, jval_of_opt_u32(s.assistant_pid)),
            ("created_at"@, jval_of_i64(s.created_at)),
        ],
    )
}

/// What the decoder accepts as a flat session record.
pub open spec fn jval_is_store_session(v: JVal) -> bool {
    &&& v matches JVal::Obj(p)
    &&& p.len() == 6
    &&& p[0].0 == "name"@ && p[0].1 is Str
    &&& p[1].0 == "worktree_path"@ && p[1].1 is Str
    &&& p[2].0 == "branch"@ && p[2].1 is Str
    &&& p[3].0 == "repo_path"@ && p[3].1 is Str
    &&& p[4].0 == "assistant_pid"@ && jval_is_opt_u32(p[4].1)
    &&& p[5].0 == "created_at"@ && jval_is_i64(p[5].1)
}

/// Whether every element is a flat session record.
pub open spec fn all_store_sessions_shaped(elems: Seq<JVal>) -> bool {
    forall|t: int| 0 <= t < elems.len() ==> jval_is_store_session(#[trigger] elems[t])
}

/// The document a flat session collection persists as.
pub open spec fn spec_store_jval(m: crate::store::SessionManager) -> JVal {
    JVal::Arr(m.sessions@.map_values(|s: crate::store::Session| spec_store_session_jval(s)))
}

/// What the decoder accepts as a flat session collection.
pub open spec fn jval_is_store(v: JVal) -> bool {
    v matches JVal::Arr(elems) && all_store_sessions_shaped(elems)
}

/// A flat session record as a document tree.
fn store_session_to_json(s: &crate::store::Session) -> (r: Json)
    ensures
        jview(r) == spec_store_session_jval(*s),
{
    let mut props: Vec<(String, Json)> = Vec::new();
    props.push((String::from_str("name"), Json::Str(s.name.clone())));
    props.push((String::from_str("worktree_path"), Json::Str(s.worktree_path.clone())));
    props.push((String::from_str("branch"), Json::Str(s.branch.clone())));
    props.push((String::from_str("repo_path"), Json::Str(s.repo_path.clone())));
    props.push((String::from_str("assistant_pid"), opt_u32_to_json(&s.assistant_pid)));
    props.push((String::from_str("created_at"), i64_to_json(s.created_at)));
    let r = Json::Obj(props);
    proof {
        let target = spec_store_session_jval(*s)->Obj_0;
        assert(jview_props(props@) =~= target) by {
            assert forall|t: int| 0 <= t < 6 implies jview_props(props@)[t] == target[t] by {
                crate::codec::lemma_jview_props_index(props@, t);
            }
            crate::codec::lemma_jview_props_index(props@, 0);
        }
    }
    r
}

/// A flat session record from a shaped document tree.
fn json_to_store_session(j: &Json) -> (r: Option<crate::store::Session>)
    ensures
        match r {
            Some(s) => jview(*j) == spec_store_session_jval(s) && jval_is_store_session(
                jview(*j),
            ),
            None => !jval_is_store_session(jview(*j)),
        },
{
    let props = match j {
        Json::Obj(props) => props,
        _ => {
            return None;
        },
    };
    proof {
        crate::codec::lemma_jview_props_index(props@, 0);
    }
    if props.len() != 6 {
        return None;
    }
    proof {
        assert forall|t: int| 0 <= t < 6 implies jview_props(props@)[t] == (
        props@[t].0@,
        jview(props@[t].1),
        ) by {
            crate::codec::lemma_jview_props_index(props@, t);
        }
    }
    if !(str_eq(props[0].0.as_str(), "name") && str_eq(props[1].0.as_str(), "worktree_path")
        && str_eq(props[2].0.as_str(), "branch") && str_eq(props[3].0.as_str(), "repo_path")
        && str_eq(props[4].0.as_str(), "assistant_pid") && str_eq(
        props[5].0.as_str(),
        "created_at",
    )) {
        return None;
    }
    let name = match &props[0].1 {
        Json::Str(s) => s.clone(),
        _ => {
            return None;
        },
    };
    let worktree_path = match &props[1].1 {
        Json::Str(s) => s.clone(),
        _ => {
            return None;
        },
    };
    let branch = match &props[2].1 {
        Json::Str(s) => s.clone(),
        _ => {
            return None;
        },
    };
    let repo_path = match &props[3].1 {
        Json::Str(s) => s.clone(),
        _ => {
            return None;
        },
    };
    let assistant_pid = match json_to_opt_u32(&props[4].1) {
        Some(o) => o,
        None => {
            return None;
        },
    };
    let created_at = match json_to_i64(&props[5].1) {
        Some(t) => t,
        None => {
            return None;
        },
    };
    let s = crate::store::Session {
        name,
        worktree_path,
        branch,
        repo_path,
        assistant_pid,
        created_at,
    };
    proof {
        assert(jview(*j) =~= spec_store_session_jval(s)) by {
            assert(jview_props(props@) =~= spec_store_session_jval(s)->Obj_0);
        }
    }
    Some(s)
}

/// The flat session collection as its persisted text.
pub fn save_store(m: &crate::store::SessionManager) -> (r: String)
    ensures
        r@ == crate::codec::enc_jval(spec_store_jval(*m)),
{
    let mut elems: Vec<Json> = Vec::new();
    let mut i: usize = 0;
    while i < m.sessions.len()
        invariant
            i <= m.sessions@.len(),
            elems@.len() == i,
            forall|t: int|
                0 <= t < i ==> jview(#[trigger] elems@[t]) == spec_store_session_jval(
                    m.sessions@[t],
                ),
        decreases m.sessions@.len() - i,
    {
        elems.push(store_session_to_json(&m.sessions[i]));
        i += 1;
    }
    let doc = Json::Arr(elems);
    proof {
        crate::codec::lemma_jview_list_index(doc->Arr_0@, 0);
        assert(jview_list(doc->Arr_0@) =~= m.sessions@.map_values(
            |s: crate::store::Session| spec_store_session_jval(s),
        )) by {
            assert forall|t: int| 0 <= t < m.sessions@.len() implies jview_list(doc->Arr_0@)[t]
                == m.sessions@.map_values(
                |s: crate::store::Session| spec_store_session_jval(s),
            )[t] by {
                crate::codec::lemma_jview_list_index(doc->Arr_0@, t);
            }
        }
    }
    crate::codec::encode_json(&doc)
}

/// The flat session collection from the persisted file's content: an absent
/// file yields an empty collection, and anything but a canonical session
/// document is rejected loudly.
pub fn load_store(content: Option<&str>) -> (r: Result<
    crate::store::SessionManager,
    crate::errors::OrchestratorError,
>)
    requires
        content matches Some(s) ==> s@.len() < usize::MAX,
    ensures
        match content {
            None => (r matches Ok(m) && m.sessions@ == Seq::<crate::store::Session>::empty()),
            Some(text) => match r {
                Ok(m) => crate::codec::sparse_jval(text@, 0, (text@.len() + 1) as nat) == Some((
                    spec_store_jval(m),
                    text@.len() as int,
                )),
                Err(e) => {
                    &&& e matches crate::errors::OrchestratorError::IoError(_)
                    &&& (match crate::codec::sparse_jval(text@, 0, (text@.len() + 1) as nat) {
                        Some(t) => t.1 != text@.len() || !jval_is_store(t.0),
                        None => true,
                    })
                },
            },
        },
{
    match content {
        None => Ok(crate::store::SessionManager::new()),
        Some(text) => {
            let doc = match crate::codec::decode_json(text) {
                Some(doc) => doc,
                None => {
                    return Err(
                        crate::errors::OrchestratorError::IoError(
                            String::from_str("persisted sessions are not well-formed"),
                        ),
                    );
                },
            };
            let elems = match &doc {
                Json::Arr(elems) => elems,
                _ => {
                    return Err(
                        crate::errors::OrchestratorError::IoError(
                            String::from_str("persisted sessions are not a list"),
                        ),
                    );
                },
            };
            let mut out: Vec<crate::store::Session> = Vec::new();
            let mut i: usize = 0;
            while i < elems.len()
                invariant
                    i <= elems@.len(),
                    out@.len() == i,
                    content == Some(text),
                    text@.len() < usize::MAX,
                    crate::codec::sparse_jval(text@, 0, (text@.len() + 1) as nat) == Some((
                        jview(doc),
                        text@.len() as int,
                    )),
                    jview(doc) == JVal::Arr(jview_list(elems@)),
                    forall|t: int|
                        0 <= t < i ==> jview_list(elems@)[t] == spec_store_session_jval(
                            #[trigger] out@[t],
                        ),
                decreases elems@.len() - i,
            {
                proof {
                    crate::codec::lemma_jview_list_index(elems@, i as int);
                }
                match json_to_store_session(&elems[i]) {
                    Some(s) => {
                        out.push(s);
                    },
                    None => {
                        proof {
                            crate::codec::lemma_jview_list_index(elems@, 0);
                            if jval_is_store(jview(doc)) {
                                assert(all_store_sessions_shaped(jview_list(elems@)));
                                assert(jval_is_store_session(jview_list(elems@)[i as int]));
                            }
                        }
                        return Err(
                            crate::errors::OrchestratorError::IoError(
                                String::from_str(
                                    "persisted sessions hold a record of another shape",
                                ),
                            ),
                        );
                    },
                }
                i += 1;
            }
            let m = crate::store::SessionManager { sessions: out };
            proof {
                crate::codec::lemma_jview_list_index(elems@, 0);
                assert(jview_list(elems@) =~= m.sessions@.map_values(
                    |s: crate::store::Session| spec_store_session_jval(s),
                ));
            }
            Ok(m)
        },
    }
}

/// A flat session record's document is well-formed and shaped.
proof fn lemma_store_session_jval_good(s: crate::store::Session)
    ensures
        crate::codec::jval_wf(spec_store_session_jval(s)),
        jval_is_store_session(spec_store_session_jval(s)),
{
    lemma_scalar_jvals(
        None,
        s.created_at,
        0,
        s.assistant_pid,
        None,
        Seq::empty(),
        AgentModel::AssistantCli,
        AgentState::Stopped,
    );
    let p = spec_store_session_jval(s)->Obj_0;
    assert(crate::codec::jprops_wf(p)) by {
        assert(forall|t: int| 0 <= t < p.len() ==> crate::codec::jval_wf((#[trigger] p[t]).1));
        lemma_jprops_wf_all(p);
    }
}

/// An equal flat session document comes from a record equal in every field.
proof fn lemma_store_session_jval_inj(s1: crate::store::Session, s2: crate::store::Session)
    requires
        spec_store_session_jval(s1) == spec_store_session_jval(s2),
    ensures
        s1.name@ == s2.name@,
        s1.worktree_path@ == s2.worktree_path@,
        s1.branch@ == s2.branch@,
        s1.repo_path@ == s2.repo_path@,
        s1.assistant_pid == s2.assistant_pid,
        s1.created_at == s2.created_at,
{
    let p1 = spec_store_session_jval(s1)->Obj_0;
    let p2 = spec_store_session_jval(s2)->Obj_0;
    assert(p1 == p2);
    assert(p1[4] == p2[4]);
    assert(s1.assistant_pid == s2.assistant_pid) by {
        match (s1.assistant_pid, s2.assistant_pid) {
            (Some(a), Some(b)) => {
                assert(jval_of_opt_u32(s1.assistant_pid) == jval_of_opt_u32(s2.assistant_pid));
            },
            _ => {},
        }
    }
    assert(p1[5] == p2[5]);
    assert(s1.created_at == s2.created_at) by {
        assert(jval_of_i64(s1.created_at) == jval_of_i64(s2.created_at));
    }
}

/// Saving and loading reproduce the flat session collection: the saved text
/// parses back to exactly its document, the loader accepts it, and any
/// collection with that document holds the same records, field for field.
pub proof fn lemma_store_round_trip(m: crate::store::SessionManager)
    ensures
        ({
            let text = crate::codec::enc_jval(spec_store_jval(m));
            &&& crate::codec::sparse_jval(text, 0, (text.len() + 1) as nat) == Some((
                spec_store_jval(m),
                text.len() as int,
            ))
            &&& jval_is_store(spec_store_jval(m))
            &&& forall|m2: crate::store::SessionManager|
                #[trigger] spec_store_jval(m2) == spec_store_jval(m) ==> m2.sessions@.len()
                    == m.sessions@.len()
        }),
{
    let elems = m.sessions@.map_values(|s: crate::store::Session| spec_store_session_jval(s));
    assert forall|t: int| 0 <= t < elems.len() implies crate::codec::jval_wf(
        #[trigger] elems[t],
    ) && jval_is_store_session(elems[t]) by {
        lemma_store_session_jval_good(m.sessions@[t]);
    }
    lemma_jlist_wf_all(elems);
    assert(all_store_sessions_shaped(elems));
    crate::codec::lemma_decode_encode(spec_store_jval(m));
    assert forall|m2: crate::store::SessionManager|
        #[trigger] spec_store_jval(m2) == spec_store_jval(m) implies m2.sessions@.len()
        == m.sessions@.len() by {
        let e2 = m2.sessions@.map_values(
            |s: crate::store::Session| spec_store_session_jval(s),
        );
        assert(e2 == elems);
        assert(e2.len() == m2.sessions@.len());
        assert(elems.len() == m.sessions@.len());
    }
}

} // verus!
