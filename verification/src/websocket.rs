//! Messages on the client websocket: how a tag update is framed, and how a
//! text message from a client is taken apart and routed.

use vstd::prelude::*;
use crate::breezart::{send_set, set_outcome_spec, SetOutcome, SetOutcomeView};
use crate::text::{chars_of, decimal, push_decimal, string_of};

verus! {

/// A tag update as clients receive it: `tag;<id>;<name>;<value>`, the id in
/// decimal.
pub open spec fn message_spec(id: nat, name: Seq<char>, value: Seq<char>) -> Seq<char> {
    "tag;"@ + decimal(id) + ";"@ + name + ";"@ + value
}

/// Frames a tag update: `tag;<id>;<name>;<value>`.
pub fn create_message(id: u32, name: &String, value: &String) -> (res: String)
    ensures
        res@ == message_spec(id as nat, name@, value@),
{
    let mut msg = String::from_str("tag;");
    push_decimal(&mut msg, id as u64);
    msg.append(";");
    msg.append(name.as_str());
    msg.append(";");
    msg.append(value.as_str());
    msg
}

/// The index of the first `;` at or after `i`, if any.
pub open spec fn first_semicolon(s: Seq<char>, i: int) -> Option<int>
    decreases s.len() - i,
{
    if i < 0 || i >= s.len() {
        None
    } else if s[i] == ';' {
        Some(i)
    } else {
        first_semicolon(s, i + 1)
    }
}

/// A message split at its first `;`: what stands before and after it.
pub open spec fn split_once_spec(s: Seq<char>) -> Option<(Seq<char>, Seq<char>)> {
    match first_semicolon(s, 0) {
        Some(i) => Some((s.take(i), s.skip(i + 1))),
        None => None,
    }
}

/// Finds the first `;` at or after `i`.
fn find_semicolon(cs: &Vec<char>, i: usize) -> (res: Option<usize>)
    requires
        i <= cs.len(),
    ensures
        res matches Some(j) ==> first_semicolon(cs@, i as int) == Some(j as int) && j < cs.len(),
        res is None ==> first_semicolon(cs@, i as int) is None,
{
    let mut j = i;
    while j < cs.len()
        invariant
            i <= j <= cs.len(),
            first_semicolon(cs@, i as int) == first_semicolon(cs@, j as int),
        decreases cs.len() - j,
    {
        if cs[j] == ';' {
            return Some(j);
        }
        j = j + 1;
    }
    None
}

/// Splits a message at its first `;` into what stands before and after it.
pub fn split_once(msg: &str) -> (res: Option<(String, String)>)
    ensures
        split_once_spec(msg@) matches Some((a, b)) ==> res matches Some((x, y)) && x@ == a && y@
            == b,
        split_once_spec(msg@) is None ==> res is None,
{
    let cs = chars_of(msg);
    match find_semicolon(&cs, 0) {
        Some(i) => {
            let name = string_of(&cs, 0, i);
            let value = string_of(&cs, i + 1, cs.len());
            assert(cs@.subrange(0, i as int) == cs@.take(i as int));
            assert(cs@.subrange(i + 1, cs@.len() as int) == cs@.skip(i + 1));
            Some((name, value))
        },
        None => None,
    }
}

proof fn lemma_first_semicolon_after(name: Seq<char>, rest: Seq<char>, i: int)
    requires
        0 <= i <= name.len(),
        !name.contains(';'),
    ensures
        first_semicolon(name + ";"@ + rest, i) == Some(name.len() as int),
    decreases name.len() - i,
{
    reveal_strlit(";");
    let s = name + ";"@ + rest;
    if i < name.len() {
        assert(s[i] == name[i]);
        lemma_first_semicolon_after(name, rest, i + 1);
    } else {
        assert(s[i] == ';');
    }
}

/// A command reads back: `<name>;<value>` splits into the name and the
/// value when the name holds no `;` (the value may hold any).
pub proof fn lemma_split_command(name: Seq<char>, value: Seq<char>)
    requires
        !name.contains(';'),
    ensures
        split_once_spec(name + ";"@ + value) == Some((name, value)),
{
    reveal_strlit(";");
    lemma_first_semicolon_after(name, value, 0);
    let s = name + ";"@ + value;
    assert(s.take(name.len() as int) =~= name);
    assert(s.skip(name.len() as int + 1) =~= value);
}

/// Where a text message from a client goes.
#[derive(Debug, PartialEq, Eq)]
pub enum ClientAction {
    /// No `;` in it: it is not a command.
    Malformed,
    /// A command for the ventilation unit, and what it came to.
    Breezart(SetOutcome),
    /// A command for the Iridium server: channel name and value.
    Iridium(String, String),
}

/// Routes a client's text message `<channel>;<value>` (split at the first
/// `;`): to the ventilation unit when the channel is one of its own, else to
/// the Iridium server.
pub fn route_client_message(msg: &str) -> (res: ClientAction)
    ensures
        split_once_spec(msg@) is None ==> res == ClientAction::Malformed,
        split_once_spec(msg@) matches Some((name, value)) ==> match set_outcome_spec(name, value) {
            SetOutcomeView::NotBreezart => res matches ClientAction::Iridium(n, v) && n@ == name
                && v@ == value,
            _ => res matches ClientAction::Breezart(o) && o@ == set_outcome_spec(name, value),
        },
{
    match split_once(msg) {
        None => ClientAction::Malformed,
        Some((name, value)) => {
            let outcome = send_set(name.as_str(), value.as_str());
            match outcome {
                SetOutcome::NotBreezart => ClientAction::Iridium(name, value),
                _ => ClientAction::Breezart(outcome),
            }
        },
    }
}

/// The messages that a newly connected client first receives: every
/// Iridium tag with its id, then every value of the ventilation unit with
/// the id 0.
pub open spec fn snapshot_spec(
    tags: Seq<(u32, String, String)>,
    values: Seq<(String, String)>,
) -> Seq<Seq<char>> {
    tags.map_values(|t: (u32, String, String)| message_spec(t.0 as nat, t.1@, t.2@))
        + values.map_values(|e: (String, String)| message_spec(0, e.0@, e.1@))
}

/// The first messages for a client, message by message: first the tags in
/// order, each framed with its own id, then the unit's values in order, each
/// framed as `tag;0;<name>;<value>`, with id 0.
pub proof fn lemma_snapshot_messages(
    tags: Seq<(u32, String, String)>,
    values: Seq<(String, String)>,
)
    ensures
        snapshot_spec(tags, values).len() == tags.len() + values.len(),
        forall|k: int|
            0 <= k < tags.len() ==> #[trigger] snapshot_spec(tags, values)[k] == "tag;"@ + decimal(
                tags[k].0 as nat,
            ) + ";"@ + tags[k].1@ + ";"@ + tags[k].2@,
        forall|k: int|
            0 <= k < values.len() ==> #[trigger] snapshot_spec(tags, values)[tags.len() + k]
                == "tag;0;"@ + values[k].0@ + ";"@ + values[k].1@,
{
    reveal_strlit("tag;0;");
    reveal_strlit("tag;");
    reveal_strlit(";");
    assert(decimal(0) == seq![crate::text::digit_char(0)]);
    assert(crate::text::digit_char(0) == '0');
    assert("tag;"@ + decimal(0) + ";"@ =~= "tag;0;"@);
    let s = snapshot_spec(tags, values);
    let t = tags.map_values(|t: (u32, String, String)| message_spec(t.0 as nat, t.1@, t.2@));
    let u = values.map_values(|e: (String, String)| message_spec(0, e.0@, e.1@));
    assert forall|k: int| 0 <= k < values.len() implies #[trigger] s[tags.len() + k] == "tag;0;"@
        + values[k].0@ + ";"@ + values[k].1@ by {
        assert(s[tags.len() + k] == u[k]);
        assert(u[k] == "tag;"@ + decimal(0) + ";"@ + values[k].0@ + ";"@ + values[k].1@);
        assert("tag;"@ + decimal(0) + ";"@ + values[k].0@ + ";"@ + values[k].1@ =~= "tag;0;"@
            + values[k].0@ + ";"@ + values[k].1@);
    }
    assert forall|k: int| 0 <= k < tags.len() implies #[trigger] s[k] == "tag;"@ + decimal(
        tags[k].0 as nat,
    ) + ";"@ + tags[k].1@ + ";"@ + tags[k].2@ by {
        assert(s[k] == t[k]);
    }
}

/// Frames the first messages for a newly connected client: every Iridium
/// tag (id, name, value), then every value of the ventilation unit with the
/// id 0.
pub fn snapshot_messages(tags: &Vec<(u32, String, String)>, values: &Vec<(String, String)>) -> (res:
    Vec<String>)
    ensures
        res@.map_values(|m: String| m@) == snapshot_spec(tags@, values@),
        res@.len() == tags@.len() + values@.len(),
        forall|k: int|
            0 <= k < values@.len() ==> #[trigger] res@[tags@.len() + k]@ == "tag;0;"@
                + values@[k].0@ + ";"@ + values@[k].1@,
{
    proof {
        lemma_snapshot_messages(tags@, values@);
    }
    let mut out: Vec<String> = Vec::new();
    let mut i: usize = 0;
    while i < tags.len()
        invariant
            i <= tags.len(),
            out@.map_values(|m: String| m@) == tags@.take(i as int).map_values(
                |t: (u32, String, String)| message_spec(t.0 as nat, t.1@, t.2@),
            ),
        decreases tags.len() - i,
    {
        let ghost before = out@;
        let m = create_message(tags[i].0, &tags[i].1, &tags[i].2);
        out.push(m);
        assert(out@.map_values(|m: String| m@) =~= before.map_values(|m: String| m@).push(m@));
        assert(tags@.take(i + 1).map_values(
            |t: (u32, String, String)| message_spec(t.0 as nat, t.1@, t.2@),
        ) =~= tags@.take(i as int).map_values(
            |t: (u32, String, String)| message_spec(t.0 as nat, t.1@, t.2@),
        ).push(message_spec(tags@[i as int].0 as nat, tags@[i as int].1@, tags@[i as int].2@)));
        assert(out@.map_values(|m: String| m@) =~= tags@.take(i + 1).map_values(
            |t: (u32, String, String)| message_spec(t.0 as nat, t.1@, t.2@),
        ));
        i = i + 1;
    }
    assert(tags@.take(tags.len() as int) == tags@);
    let ghost n = tags.len();
    let mut k: usize = 0;
    while k < values.len()
        invariant
            k <= values.len(),
            n == tags.len(),
            out@.map_values(|m: String| m@) == tags@.map_values(
                |t: (u32, String, String)| message_spec(t.0 as nat, t.1@, t.2@),
            ) + values@.take(k as int).map_values(|e: (String, String)| message_spec(0, e.0@, e.1@)),
        decreases values.len() - k,
    {
        let ghost before = out@;
        let m = create_message(0, &values[k].0, &values[k].1);
        out.push(m);
        assert(out@.map_values(|m: String| m@) =~= before.map_values(|m: String| m@).push(m@));
        assert(values@.take(k + 1).map_values(|e: (String, String)| message_spec(0, e.0@, e.1@))
            =~= values@.take(k as int).map_values(|e: (String, String)| message_spec(0, e.0@, e.1@)).push(
            message_spec(0, values@[k as int].0@, values@[k as int].1@)));
        assert(out@.map_values(|m: String| m@) =~= tags@.map_values(
            |t: (u32, String, String)| message_spec(t.0 as nat, t.1@, t.2@),
        ) + values@.take(k + 1).map_values(|e: (String, String)| message_spec(0, e.0@, e.1@)));
        k = k + 1;
    }
    assert(values@.take(values.len() as int) == values@);
    let ghost ms = out@.map_values(|m: String| m@);
    assert(ms == snapshot_spec(tags@, values@));
    assert forall|k: int| 0 <= k < values@.len() implies #[trigger] out@[tags@.len() + k]@
        == "tag;0;"@ + values@[k].0@ + ";"@ + values@[k].1@ by {
        assert(ms[tags@.len() + k] == out@[tags@.len() + k]@);
    }
    out
}

} // verus!
