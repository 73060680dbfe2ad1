//! The Breezart ventilation unit: the values it last reported, the status
//! line it answers with, the set commands it accepts, and how eagerly the
//! connection loop polls it.

use vstd::prelude::*;
use crate::text::{
    chars_of, chars_equal, decimal, digits_value, hex_upper, parse_unsigned, parse_unsigned_spec,
    push_decimal, push_hex_upper, push_chars,
};

verus! {

/// A value that the unit reports.
#[derive(Debug, PartialEq, Eq, Structural, Clone, Copy, Hash)]
pub enum Parameter {
    PwrBtnState,
    UnitState,
    Tempr,
    SpeedTarget,
    SpeedFact,
}

/// The channel name of a parameter: `Breezart.` followed by its name.
pub open spec fn parameter_name(p: Parameter) -> Seq<char> {
    match p {
        Parameter::PwrBtnState => "Breezart.PwrBtnState"@,
        Parameter::UnitState => "Breezart.UnitState"@,
        Parameter::Tempr => "Breezart.Tempr"@,
        Parameter::SpeedTarget => "Breezart.SpeedTarget"@,
        Parameter::SpeedFact => "Breezart.SpeedFact"@,
    }
}

/// The channel name of a parameter, `Breezart.<name>`.
pub fn format(parameter: &Parameter) -> (res: String)
    ensures
        res@ == parameter_name(*parameter),
{
    match parameter {
        Parameter::PwrBtnState => String::from_str("Breezart.PwrBtnState"),
        Parameter::UnitState => String::from_str("Breezart.UnitState"),
        Parameter::Tempr => String::from_str("Breezart.Tempr"),
        Parameter::SpeedTarget => String::from_str("Breezart.SpeedTarget"),
        Parameter::SpeedFact => String::from_str("Breezart.SpeedFact"),
    }
}

/// The abstract state: the last value stored for each parameter, and how
/// many more polls are to use the short receive timeout.
pub struct BreezartView {
    pub values: Map<Parameter, Seq<char>>,
    pub intensity: nat,
}

/// The values last reported by the unit, and the count of polls that are
/// still to use the short receive timeout.
pub struct BreezartValues {
    pwr_btn_state: Option<String>,
    unit_state: Option<String>,
    tempr: Option<String>,
    speed_target: Option<String>,
    speed_fact: Option<String>,
    intensive_recv_attempts: u32,
}

/// The view of an optional string.
pub open spec fn opt_view(o: Option<String>) -> Option<Seq<char>> {
    match o {
        Some(s) => Some(s@),
        None => None,
    }
}

/// The view of an optional pair of strings.
pub open spec fn opt_pair_view(o: Option<(String, String)>) -> Option<(Seq<char>, Seq<char>)> {
    match o {
        Some(e) => Some((e.0@, e.1@)),
        None => None,
    }
}

/// The view of an optional borrowed string.
pub open spec fn ref_view(o: Option<&String>) -> Option<Seq<char>> {
    match o {
        Some(s) => Some(s@),
        None => None,
    }
}

impl BreezartValues {
    /// The value stored for `p`, if any.
    pub closed spec fn stored(&self, p: Parameter) -> Option<Seq<char>> {
        match p {
            Parameter::PwrBtnState => opt_view(self.pwr_btn_state),
            Parameter::UnitState => opt_view(self.unit_state),
            Parameter::Tempr => opt_view(self.tempr),
            Parameter::SpeedTarget => opt_view(self.speed_target),
            Parameter::SpeedFact => opt_view(self.speed_fact),
        }
    }

    /// The count of polls still to use the short receive timeout.
    pub closed spec fn intensity(&self) -> nat {
        self.intensive_recv_attempts as nat
    }
}

/// The map of stored values, built from a lookup function.
pub open spec fn values_map(f: spec_fn(Parameter) -> Option<Seq<char>>) -> Map<
    Parameter,
    Seq<char>,
> {
    Map::new(|p: Parameter| f(p) is Some, |p: Parameter| f(p).unwrap())
}

impl View for BreezartValues {
    type V = BreezartView;

    open spec fn view(&self) -> BreezartView {
        BreezartView {
            values: values_map(|p: Parameter| self.stored(p)),
            intensity: self.intensity(),
        }
    }
}

/// Storing `value` for `p`: the new state, and the channel name and value
/// to broadcast, if any. A value is broadcast when it is new or differs from
/// the stored one; a change of a stored value also sets the short-timeout
/// count to 30.
pub open spec fn store_spec(v: BreezartView, p: Parameter, value: Seq<char>) -> (BreezartView, Option<
    (Seq<char>, Seq<char>),
>) {
    let values = v.values.insert(p, value);
    if !v.values.contains_key(p) {
        (BreezartView { values, intensity: v.intensity }, Some((parameter_name(p), value)))
    } else if v.values[p] != value {
        (BreezartView { values, intensity: 30 }, Some((parameter_name(p), value)))
    } else {
        (BreezartView { values, intensity: v.intensity }, None)
    }
}

/// The stored entry of `p` as a list of at most one (name, value) pair.
pub open spec fn entry_of(v: BreezartView, p: Parameter) -> Seq<(Seq<char>, Seq<char>)> {
    if v.values.contains_key(p) {
        seq![(parameter_name(p), v.values[p])]
    } else {
        seq![]
    }
}

/// All stored values as (channel name, value) pairs, in the order in which
/// the parameters are declared.
pub open spec fn all_values_spec(v: BreezartView) -> Seq<(Seq<char>, Seq<char>)> {
    entry_of(v, Parameter::PwrBtnState) + entry_of(v, Parameter::UnitState) + entry_of(
        v,
        Parameter::Tempr,
    ) + entry_of(v, Parameter::SpeedTarget) + entry_of(v, Parameter::SpeedFact)
}

/// The views of a list of string pairs.
pub open spec fn pairs_view(s: Seq<(String, String)>) -> Seq<(Seq<char>, Seq<char>)> {
    s.map_values(|e: (String, String)| (e.0@, e.1@))
}

impl BreezartValues {
    /// No value stored, and the long receive timeout.
    pub fn new() -> (res: Self)
        ensures
            res@.values == Map::<Parameter, Seq<char>>::empty(),
            res@.intensity == 1,
            values_well_formed(res@),
    {
        let res = BreezartValues {
            pwr_btn_state: None,
            unit_state: None,
            tempr: None,
            speed_target: None,
            speed_fact: None,
            intensive_recv_attempts: 1,
        };
        assert(res@.values =~= Map::<Parameter, Seq<char>>::empty());
        res
    }

    fn get(&self, p: &Parameter) -> (res: Option<&String>)
        ensures
            ref_view(res) == self.stored(*p),
    {
        match p {
            Parameter::PwrBtnState => self.pwr_btn_state.as_ref(),
            Parameter::UnitState => self.unit_state.as_ref(),
            Parameter::Tempr => self.tempr.as_ref(),
            Parameter::SpeedTarget => self.speed_target.as_ref(),
            Parameter::SpeedFact => self.speed_fact.as_ref(),
        }
    }

    fn set(&mut self, p: &Parameter, value: String)
        ensures
            final(self).stored(*p) == Some(value@),
            forall|q: Parameter| q != *p ==> final(self).stored(q) == old(self).stored(q),
            final(self).intensity() == old(self).intensity(),
    {
        match p {
            Parameter::PwrBtnState => self.pwr_btn_state = Some(value),
            Parameter::UnitState => self.unit_state = Some(value),
            Parameter::Tempr => self.tempr = Some(value),
            Parameter::SpeedTarget => self.speed_target = Some(value),
            Parameter::SpeedFact => self.speed_fact = Some(value),
        }
    }

    /// Stores `value` for `parameter`. Returns the channel name and value to
    /// broadcast when the value is new or has changed; a change of a stored
    /// value also sets the short-timeout count to 30.
    pub fn store_value(&mut self, parameter: &Parameter, value: String) -> (res: Option<
        (String, String),
    >)
        ensures
            (final(self)@, opt_pair_view(res)) == store_spec(
                old(self)@,
                *parameter,
                value@,
            ),
            !old(self)@.values.contains_key(*parameter) ==> (res matches Some(e) && e.0@
                == parameter_name(*parameter) && e.1@ == value@),
            final(self)@.values.contains_key(*parameter) && final(self)@.values[*parameter]
                == value@,
    {
        let ghost v0 = self@;
        let state: u8 = match self.get(parameter) {
            None => 0,
            Some(old_value) => if old_value.eq(&value) {
                2
            } else {
                1
            },
        };
        self.set(parameter, value.clone());
        if state == 1 {
            self.intensive_recv_attempts = 30;
        }
        assert(self@.values =~= v0.values.insert(*parameter, value@));
        if state == 2 {
            None
        } else {
            Some((format(parameter), value))
        }
    }

    /// Sets the short-timeout count to 30 when the unit acknowledged a
    /// command, that is when its answer starts with `OK_`. Returns whether it
    /// did.
    pub fn on_response_stub(&mut self, response_payload: &str) -> (res: bool)
        ensures
            res == (response_payload@.len() >= 3 && response_payload@.take(3) == "OK_"@),
            final(self)@.values == old(self)@.values,
            final(self)@.intensity == (if res {
                30
            } else {
                old(self)@.intensity
            }),
    {
        let cs = chars_of(response_payload);
        let ok = cs.len() >= 3 && cs[0] == 'O' && cs[1] == 'K' && cs[2] == '_';
        proof {
            reveal_strlit("OK_");
            if ok {
                assert(cs@.take(3) =~= "OK_"@);
            } else if cs@.len() >= 3 && cs@.take(3) == "OK_"@ {
                assert(cs@.take(3)[0] == 'O' && cs@.take(3)[1] == 'K' && cs@.take(3)[2] == '_');
            }
        }
        if ok {
            self.intensive_recv_attempts = 30;
        }
        ok
    }

    /// The receive timeout, in milliseconds, of the next poll: 500 while the
    /// short-timeout count is positive, which it then lowers by one, and
    /// 30000 once it is 0.
    pub fn next_recv_timeout(&mut self) -> (res: u64)
        ensures
            final(self)@.values == old(self)@.values,
            res == (if old(self)@.intensity > 0 {
                500u64
            } else {
                30000u64
            }),
            final(self)@.intensity == (if old(self)@.intensity > 0 {
                (old(self)@.intensity - 1) as nat
            } else {
                0
            }),
    {
        if self.intensive_recv_attempts > 0 {
            self.intensive_recv_attempts = self.intensive_recv_attempts - 1;
            500
        } else {
            30000
        }
    }
}

fn push_entry(dst: &mut Vec<(String, String)>, p: &Parameter, value: Option<&String>)
    ensures
        pairs_view(final(dst)@) == pairs_view(old(dst)@) + (match ref_view(value) {
            Some(v) => seq![(parameter_name(*p), v)],
            None => Seq::<(Seq<char>, Seq<char>)>::empty(),
        }),
{
    match value {
        Some(v) => {
            dst.push((format(p), v.clone()));
        },
        None => {},
    }
    assert(pairs_view(dst@) =~= pairs_view(old(dst)@) + (match ref_view(value) {
        Some(v) => seq![(parameter_name(*p), v)],
        None => Seq::<(Seq<char>, Seq<char>)>::empty(),
    }));
}

/// Every stored value with its channel name, in the order in which the
/// parameters are declared.
pub fn get_all_values(src: &BreezartValues) -> (res: Vec<(String, String)>)
    ensures
        pairs_view(res@) == all_values_spec(src@),
{
    let mut dst: Vec<(String, String)> = Vec::new();
    push_entry(&mut dst, &Parameter::PwrBtnState, src.get(&Parameter::PwrBtnState));
    push_entry(&mut dst, &Parameter::UnitState, src.get(&Parameter::UnitState));
    push_entry(&mut dst, &Parameter::Tempr, src.get(&Parameter::Tempr));
    push_entry(&mut dst, &Parameter::SpeedTarget, src.get(&Parameter::SpeedTarget));
    push_entry(&mut dst, &Parameter::SpeedFact, src.get(&Parameter::SpeedFact));
    assert(pairs_view(dst@) =~= all_values_spec(src@));
    dst
}

/// A character of the class `[0-9a-f]`.
pub open spec fn is_lower_hex(c: char) -> bool {
    ('0' <= c <= '9') || ('a' <= c <= 'f')
}

/// The length of the run of `[0-9a-f]` characters that starts at `i`.
pub open spec fn hex_run(s: Seq<char>, i: int) -> nat
    decreases s.len() - i,
{
    if 0 <= i < s.len() && is_lower_hex(s[i]) {
        1 + hex_run(s, i + 1)
    } else {
        0
    }
}

/// A non-empty run of `[0-9a-f]` at `start`, followed by `_`.
pub open spec fn delimited_field(s: Seq<char>, start: int) -> bool {
    &&& hex_run(s, start) > 0
    &&& start + hex_run(s, start) < s.len()
    &&& s[start + hex_run(s, start)] == '_'
}

/// Where the field after the one at `start` begins, past its `_`.
pub open spec fn next_field(s: Seq<char>, start: int) -> int {
    start + hex_run(s, start) + 1
}

/// The run at `start`.
pub open spec fn field_at(s: Seq<char>, start: int) -> Seq<char> {
    s.subrange(start, start + hex_run(s, start))
}

/// The four captured fields of a status line that matches
/// `^VSt07_([0-9a-f]+)_([0-9a-f]+)_([0-9a-f]+)_[0-9a-f]+_([0-9a-f]+)`:
/// the first, second, third and fifth hexadecimal field after the `VSt07_`
/// prefix, the fifth taken as long as it runs; anything may follow it.
pub open spec fn vst07_captures(s: Seq<char>) -> Option<(Seq<char>, Seq<char>, Seq<char>, Seq<char>)> {
    let p1 = 6;
    let p2 = next_field(s, p1);
    let p3 = next_field(s, p2);
    let p4 = next_field(s, p3);
    let p5 = next_field(s, p4);
    if s.len() >= 6 && s.take(6) == "VSt07_"@ && delimited_field(s, p1) && delimited_field(s, p2)
        && delimited_field(s, p3) && delimited_field(s, p4) && hex_run(s, p5) > 0 {
        Some((field_at(s, p1), field_at(s, p2), field_at(s, p3), field_at(s, p5)))
    } else {
        None
    }
}

/// Only `[0-9a-f]` characters.
pub open spec fn all_lower_hex(s: Seq<char>) -> bool {
    forall|i: int| 0 <= i < s.len() ==> is_lower_hex(s[i])
}

proof fn lemma_hex_run_exact(s: Seq<char>, i: int, k: nat)
    requires
        0 <= i,
        i + k <= s.len(),
        forall|j: int| i <= j < i + k ==> is_lower_hex(s[j]),
        i + k == s.len() || !is_lower_hex(s[i + k]),
    ensures
        hex_run(s, i) == k,
    decreases k,
{
    if k > 0 {
        lemma_hex_run_exact(s, i + 1, (k - 1) as nat);
    }
}

proof fn lemma_field_at(s: Seq<char>, start: int, f: Seq<char>, last: bool)
    requires
        0 <= start,
        start + f.len() <= s.len(),
        s.subrange(start, start + f.len()) == f,
        f.len() > 0,
        all_lower_hex(f),
        last ==> (start + f.len() == s.len() || !is_lower_hex(s[start + f.len()])),
        !last ==> (start + f.len() < s.len() && s[start + f.len()] == '_'),
    ensures
        hex_run(s, start) == f.len(),
        field_at(s, start) == f,
        !last ==> delimited_field(s, start) && next_field(s, start) == start + f.len() + 1,
{
    assert forall|j: int| start <= j < start + f.len() implies is_lower_hex(s[j]) by {
        assert(s[j] == f[j - start]);
    }
    lemma_hex_run_exact(s, start, f.len());
}

/// A status line reads back: the line `VSt07_a_b_c_d_e` followed by anything
/// that does not go on with a hex digit yields the fields a, b, c and e.
pub proof fn lemma_vst07_fields(
    a: Seq<char>,
    b: Seq<char>,
    c: Seq<char>,
    d: Seq<char>,
    e: Seq<char>,
    rest: Seq<char>,
)
    requires
        a.len() > 0 && b.len() > 0 && c.len() > 0 && d.len() > 0 && e.len() > 0,
        all_lower_hex(a) && all_lower_hex(b) && all_lower_hex(c) && all_lower_hex(d)
            && all_lower_hex(e),
        rest.len() == 0 || !is_lower_hex(rest[0]),
    ensures
        vst07_captures(
            "VSt07_"@ + a + seq!['_'] + b + seq!['_'] + c + seq!['_'] + d + seq!['_'] + e + rest,
        ) == Some((a, b, c, e)),
{
    reveal_strlit("VSt07_");
    let s = "VSt07_"@ + a + seq!['_'] + b + seq!['_'] + c + seq!['_'] + d + seq!['_'] + e + rest;
    let p1: int = 6;
    let p2: int = p1 + a.len() + 1;
    let p3: int = p2 + b.len() + 1;
    let p4: int = p3 + c.len() + 1;
    let p5: int = p4 + d.len() + 1;
    assert(s.take(6) =~= "VSt07_"@);
    assert(s.subrange(p1, p1 + a.len()) =~= a);
    assert(s[p1 + a.len()] == '_');
    assert(s.subrange(p2, p2 + b.len()) =~= b);
    assert(s[p2 + b.len()] == '_');
    assert(s.subrange(p3, p3 + c.len()) =~= c);
    assert(s[p3 + c.len()] == '_');
    assert(s.subrange(p4, p4 + d.len()) =~= d);
    assert(s[p4 + d.len()] == '_');
    assert(s.subrange(p5, p5 + e.len()) =~= e);
    if rest.len() > 0 {
        assert(s[p5 + e.len()] == rest[0]);
    }
    lemma_field_at(s, p1, a, false);
    lemma_field_at(s, p2, b, false);
    lemma_field_at(s, p3, c, false);
    lemma_field_at(s, p4, d, false);
    lemma_field_at(s, p5, e, true);
}

/// Every status line that matches opens with `VSt07_a_b_c_` and its four
/// captured fields are non-empty runs of `[0-9a-f]`, the first three being
/// the first three fields of the line.
pub proof fn lemma_vst07_captures_shape(s: Seq<char>)
    ensures
        vst07_captures(s) matches Some((a, b, c, d)) ==> {
            &&& a.len() > 0 && b.len() > 0 && c.len() > 0 && d.len() > 0
            &&& forall|i: int| 0 <= i < a.len() ==> ('0' <= #[trigger] a[i] <= '9') || ('a' <= a[i] <= 'f')
            &&& forall|i: int| 0 <= i < b.len() ==> ('0' <= #[trigger] b[i] <= '9') || ('a' <= b[i] <= 'f')
            &&& forall|i: int| 0 <= i < c.len() ==> ('0' <= #[trigger] c[i] <= '9') || ('a' <= c[i] <= 'f')
            &&& forall|i: int| 0 <= i < d.len() ==> ('0' <= #[trigger] d[i] <= '9') || ('a' <= d[i] <= 'f')
            &&& s.len() >= 9 + a.len() + b.len() + c.len()
            &&& s.take((9 + a.len() + b.len() + c.len()) as int) == "VSt07_"@ + a + seq!['_'] + b + seq![
                '_',
            ] + c + seq!['_']
        },
{
    if let Some((a, b, c, d)) = vst07_captures(s) {
        reveal_strlit("VSt07_");
        let p1: int = 6;
        let p2 = next_field(s, p1);
        let p3 = next_field(s, p2);
        let p4 = next_field(s, p3);
        let p5 = next_field(s, p4);
        lemma_hex_run_chars(s, p1);
        lemma_hex_run_chars(s, p2);
        lemma_hex_run_chars(s, p3);
        lemma_hex_run_chars(s, p5);
        assert forall|i: int| 0 <= i < a.len() implies is_lower_hex(a[i]) by {
            assert(a[i] == s[p1 + i]);
        }
        assert forall|i: int| 0 <= i < b.len() implies is_lower_hex(b[i]) by {
            assert(b[i] == s[p2 + i]);
        }
        assert forall|i: int| 0 <= i < c.len() implies is_lower_hex(c[i]) by {
            assert(c[i] == s[p3 + i]);
        }
        assert forall|i: int| 0 <= i < d.len() implies is_lower_hex(d[i]) by {
            assert(d[i] == s[p5 + i]);
        }
        let n: int = (9 + a.len() + b.len() + c.len()) as int;
        let t = "VSt07_"@ + a + seq!['_'] + b + seq!['_'] + c + seq!['_'];
        assert(s.take(6) == "VSt07_"@);
        assert forall|i: int| 0 <= i < n implies s.take(n)[i] == t[i] by {
            if i < 6 {
                assert(s.take(6)[i] == s[i]);
            } else if i < p2 - 1 {
                assert(t[i] == a[i - 6]);
            } else if i == p2 - 1 {
            } else if i < p3 - 1 {
                assert(t[i] == b[i - p2]);
            } else if i == p3 - 1 {
            } else if i < p4 - 1 {
                assert(t[i] == c[i - p3]);
            } else {
            }
        }
        assert(s.take(n) =~= t);
    }
}

/// A captured field read as a `u16`, `None` when its value does not fit.
pub open spec fn hex_u16(field: Seq<char>) -> Option<u16> {
    match parse_unsigned_spec(field, 16, 0xffff) {
        Some(v) => Some(v as u16),
        None => None,
    }
}

/// The fields of a status line, each read as a `u16` where it fits.
#[derive(Debug, PartialEq, Eq, Structural, Clone, Copy)]
pub struct Vst07 {
    pub power: Option<u16>,
    pub unit: Option<u16>,
    pub temperature: Option<u16>,
    pub speed: Option<u16>,
}

/// The fields of a status line, or `None` when the line does not match.
pub open spec fn parse_vst07_spec(s: Seq<char>) -> Option<Vst07> {
    match vst07_captures(s) {
        Some((a, b, c, d)) => Some(
            Vst07 { power: hex_u16(a), unit: hex_u16(b), temperature: hex_u16(c), speed: hex_u16(d) },
        ),
        None => None,
    }
}

/// The temperature and the actual speed are signed bytes: the line is only
/// taken where both lie in 0..=127.
pub open spec fn vst07_in_range(r: Vst07) -> bool {
    &&& (r.temperature matches Some(bits) ==> bits % 256 < 128)
    &&& (r.speed matches Some(bits) ==> (bits / 256) % 256 < 128)
}

/// A status line that does not match, or whose signed fields are in range.
pub open spec fn vst07_line_in_range(s: Seq<char>) -> bool {
    match parse_vst07_spec(s) {
        Some(r) => vst07_in_range(r),
        None => true,
    }
}

/// The writes that a status line makes, in order: the power button (bit 0,
/// as `1` or `0`), the unit state (bits 0-1), the temperature (low byte),
/// the target speed (bits 4-7) and the actual speed (high byte), each in
/// decimal; a field that does not fit a `u16` writes nothing.
pub open spec fn vst07_writes(r: Vst07) -> Seq<(Parameter, Seq<char>)> {
    (match r.power {
        Some(bits) => seq![
            (Parameter::PwrBtnState, if bits % 2 == 1 {
                seq!['1']
            } else {
                seq!['0']
            }),
        ],
        None => seq![],
    }) + (match r.unit {
        Some(bits) => seq![(Parameter::UnitState, decimal((bits % 4) as nat))],
        None => seq![],
    }) + (match r.temperature {
        Some(bits) => seq![(Parameter::Tempr, decimal((bits % 256) as nat))],
        None => seq![],
    }) + (match r.speed {
        Some(bits) => seq![
            (Parameter::SpeedTarget, decimal(((bits / 16) % 16) as nat)),
            (Parameter::SpeedFact, decimal(((bits / 256) % 256) as nat)),
        ],
        None => seq![],
    })
}

/// Storing a list of writes in order: the final state and the broadcasts
/// made, in order.
pub open spec fn store_all(v: BreezartView, writes: Seq<(Parameter, Seq<char>)>) -> (BreezartView, Seq<
    (Seq<char>, Seq<char>),
>)
    decreases writes.len(),
{
    if writes.len() == 0 {
        (v, seq![])
    } else {
        let (v1, sent) = store_all(v, writes.drop_last());
        let (v2, b) = store_spec(v1, writes.last().0, writes.last().1);
        (v2, match b {
            Some(e) => sent.push(e),
            None => sent,
        })
    }
}

/// The length of the run of `[0-9a-f]` at `i`.
fn hex_run_exec(cs: &Vec<char>, i: usize) -> (res: usize)
    requires
        i <= cs.len(),
    ensures
        res == hex_run(cs@, i as int),
        i + res <= cs.len(),
{
    let mut j = i;
    while j < cs.len() && (('0' <= cs[j] && cs[j] <= '9') || ('a' <= cs[j] && cs[j] <= 'f'))
        invariant
            i <= j <= cs.len(),
            hex_run(cs@, i as int) == (j - i) + hex_run(cs@, j as int),
        decreases cs.len() - j,
    {
        j = j + 1;
    }
    j - i
}

proof fn lemma_hex_run_chars(s: Seq<char>, i: int)
    requires
        0 <= i,
    ensures
        i + hex_run(s, i) <= s.len() || hex_run(s, i) == 0,
        forall|j: int| i <= j < i + hex_run(s, i) ==> is_lower_hex(s[j]),
    decreases s.len() - i,
{
    if 0 <= i < s.len() && is_lower_hex(s[i]) {
        lemma_hex_run_chars(s, i + 1);
    }
}

proof fn lemma_lower_hex_value(field: Seq<char>)
    requires
        all_lower_hex(field),
    ensures
        digits_value(field, 16) is Some,
    decreases field.len(),
{
    if field.len() > 0 {
        assert(all_lower_hex(field.drop_last()));
        lemma_lower_hex_value(field.drop_last());
        assert(is_lower_hex(field.last()));
    }
}

/// The error text of a captured field too large for a `u16`, as std's
/// `ParseIntError` shows it.
pub open spec fn too_large_text() -> Seq<char> {
    "number too large to fit in target type"@
}

/// A captured field read as a `u16`, or the error text when it does not fit.
pub open spec fn parse_hex_capture_spec(field: Seq<char>) -> Result<u16, Seq<char>> {
    match hex_u16(field) {
        Some(v) => Ok(v),
        None => Err(too_large_text()),
    }
}

/// Reads the captured field `cs[from..to]`, a non-empty run of `[0-9a-f]`,
/// as a `u16` with `u16::from_str_radix(_, 16)`. The only way it can fail is
/// a value too large, reported with std's text for that error.
pub fn parse_hex_capture(cs: &Vec<char>, from: usize, to: usize) -> (res: Result<u16, String>)
    requires
        from < to <= cs.len(),
        forall|j: int| from <= j < to ==> is_lower_hex(cs@[j]),
    ensures
        res matches Ok(v) ==> parse_hex_capture_spec(cs@.subrange(from as int, to as int)) == Ok::<
            u16,
            Seq<char>,
        >(v),
        res matches Err(e) ==> parse_hex_capture_spec(cs@.subrange(from as int, to as int))
            == Err::<u16, Seq<char>>(e@),
        res is Err ==> digits_value(cs@.subrange(from as int, to as int), 16).unwrap() > 0xffff,
{
    let ghost field = cs@.subrange(from as int, to as int);
    proof {
        assert(all_lower_hex(field));
        lemma_lower_hex_value(field);
        assert(field[0] != '+');
    }
    match parse_unsigned(cs, from, to, 16, 0xffff) {
        Some(v) => Ok(v as u16),
        None => Err(String::from_str("number too large to fit in target type")),
    }
}

fn parse_field(cs: &Vec<char>, from: usize, to: usize) -> (res: Option<u16>)
    requires
        from < to <= cs.len(),
        forall|j: int| from <= j < to ==> is_lower_hex(cs@[j]),
    ensures
        res == hex_u16(cs@.subrange(from as int, to as int)),
{
    match parse_hex_capture(cs, from, to) {
        Ok(v) => Some(v),
        Err(_) => None,
    }
}

/// Reads a status line: `None` when it does not match
/// `^VSt07_([0-9a-f]+)_([0-9a-f]+)_([0-9a-f]+)_[0-9a-f]+_([0-9a-f]+)`, else
/// its four captured fields, each as a `u16` where it fits.
pub fn parse_vst07(line: &str) -> (res: Option<Vst07>)
    ensures
        res == parse_vst07_spec(line@),
{
    let cs = chars_of(line);
    let ghost s = cs@;
    proof {
        reveal_strlit("VSt07_");
    }
    if cs.len() < 6 || cs[0] != 'V' || cs[1] != 'S' || cs[2] != 't' || cs[3] != '0' || cs[4]
        != '7' || cs[5] != '_' {
        proof {
            if s.len() >= 6 && s.take(6) == "VSt07_"@ {
                assert(s.take(6)[0] == 'V' && s.take(6)[1] == 'S' && s.take(6)[2] == 't');
                assert(s.take(6)[3] == '0' && s.take(6)[4] == '7' && s.take(6)[5] == '_');
            }
        }
        return None;
    }
    assert(s.take(6) =~= "VSt07_"@);
    let p1: usize = 6;
    let r1 = hex_run_exec(&cs, p1);
    if r1 == 0 || p1 + r1 >= cs.len() || cs[p1 + r1] != '_' {
        return None;
    }
    let p2 = p1 + r1 + 1;
    let r2 = hex_run_exec(&cs, p2);
    if r2 == 0 || p2 + r2 >= cs.len() || cs[p2 + r2] != '_' {
        return None;
    }
    let p3 = p2 + r2 + 1;
    let r3 = hex_run_exec(&cs, p3);
    if r3 == 0 || p3 + r3 >= cs.len() || cs[p3 + r3] != '_' {
        return None;
    }
    let p4 = p3 + r3 + 1;
    let r4 = hex_run_exec(&cs, p4);
    if r4 == 0 || p4 + r4 >= cs.len() || cs[p4 + r4] != '_' {
        return None;
    }
    let p5 = p4 + r4 + 1;
    let r5 = hex_run_exec(&cs, p5);
    if r5 == 0 {
        return None;
    }
    proof {
        lemma_hex_run_chars(cs@, p1 as int);
        lemma_hex_run_chars(cs@, p2 as int);
        lemma_hex_run_chars(cs@, p3 as int);
        lemma_hex_run_chars(cs@, p5 as int);
    }
    Some(
        Vst07 {
            power: parse_field(&cs, p1, p1 + r1),
            unit: parse_field(&cs, p2, p2 + r2),
            temperature: parse_field(&cs, p3, p3 + r3),
            speed: parse_field(&cs, p5, p5 + r5),
        },
    )
}

impl Vst07 {
    /// Whether the signed fields lie in 0..=127.
    pub fn fits(&self) -> (res: bool)
        ensures
            res == vst07_in_range(*self),
    {
        let t_ok = match self.temperature {
            Some(bits) => bits % 256 < 128,
            None => true,
        };
        let s_ok = match self.speed {
            Some(bits) => (bits / 256) % 256 < 128,
            None => true,
        };
        t_ok && s_ok
    }
}

fn decimal_of(n: u16) -> (res: String)
    ensures
        res@ == decimal(n as nat),
{
    let mut s = String::new();
    push_decimal(&mut s, n as u64);
    assert(s@ == decimal(n as nat));
    s
}

/// The writes of a status line, built.
fn vst07_writes_exec(r: &Vst07) -> (res: Vec<(Parameter, String)>)
    ensures
        res@.map_values(|e: (Parameter, String)| (e.0, e.1@)) == vst07_writes(*r),
{
    let mut w: Vec<(Parameter, String)> = Vec::new();
    if let Some(bits) = r.power {
        let on: bool = bits & 0x1 == 1;
        assert((bits & 0x1 == 1) == (bits % 2 == 1)) by (bit_vector);
        let mut v = String::new();
        crate::text::push_char(&mut v, if on { '1' } else { '0' });
        w.push((Parameter::PwrBtnState, v));
    }
    if let Some(bits) = r.unit {
        let value: u16 = bits & 0x3;
        assert(bits & 0x3 == bits % 4) by (bit_vector);
        w.push((Parameter::UnitState, decimal_of(value)));
    }
    if let Some(bits) = r.temperature {
        let value: u16 = bits & 0xff;
        assert(bits & 0xff == bits % 256) by (bit_vector);
        w.push((Parameter::Tempr, decimal_of(value)));
    }
    if let Some(bits) = r.speed {
        let target: u16 = (bits >> 4) & 0xf;
        let fact: u16 = (bits >> 8) & 0xff;
        assert((bits >> 4) & 0xf == (bits / 16) % 16) by (bit_vector);
        assert((bits >> 8) & 0xff == (bits / 256) % 256) by (bit_vector);
        w.push((Parameter::SpeedTarget, decimal_of(target)));
        w.push((Parameter::SpeedFact, decimal_of(fact)));
    }
    assert(w@.map_values(|e: (Parameter, String)| (e.0, e.1@)) =~= vst07_writes(*r));
    w
}

impl BreezartValues {
    /// Stores the values of a parsed status line, in order, and returns the
    /// broadcasts that the stores made.
    pub fn apply_vst07(&mut self, r: &Vst07) -> (res: Vec<(String, String)>)
        requires
            vst07_in_range(*r),
        ensures
            (final(self)@, pairs_view(res@)) == store_all(old(self)@, vst07_writes(*r)),
            values_well_formed(old(self)@) ==> values_well_formed(final(self)@),
    {
        proof {
            if values_well_formed(self@) {
                lemma_vst07_keeps_values_well_formed(self@, *r);
            }
        }
        let writes = vst07_writes_exec(r);
        let ghost wv = writes@.map_values(|e: (Parameter, String)| (e.0, e.1@));
        let mut sent: Vec<(String, String)> = Vec::new();
        let mut i: usize = 0;
        while i < writes.len()
            invariant
                i <= writes.len(),
                wv == writes@.map_values(|e: (Parameter, String)| (e.0, e.1@)),
                (self@, pairs_view(sent@)) == store_all(old(self)@, wv.take(i as int)),
            decreases writes.len() - i,
        {
            assert(wv.take(i + 1).drop_last() == wv.take(i as int));
            let ghost before = sent@;
            let b = self.store_value(&writes[i].0, writes[i].1.clone());
            match b {
                Some(e) => {
                    sent.push(e);
                    assert(pairs_view(sent@) =~= pairs_view(before).push(
                        (sent@.last().0@, sent@.last().1@),
                    ));
                },
                None => {},
            }
            i = i + 1;
        }
        assert(wv.take(writes.len() as int) == wv);
        sent
    }

    /// Handles a status line: `None` when it does not match (the values stay
    /// as they are); else its values are stored in order, and the broadcasts
    /// that the stores made are returned.
    pub fn on_vst07_response(&mut self, line: &str) -> (res: Option<Vec<(String, String)>>)
        requires
            vst07_line_in_range(line@),
        ensures
            parse_vst07_spec(line@) is None ==> res is None && final(self)@ == old(self)@,
            parse_vst07_spec(line@) matches Some(r) ==> res matches Some(sent) && (
            final(self)@,
            pairs_view(sent@),
            ) == store_all(old(self)@, vst07_writes(r)),
            values_well_formed(old(self)@) ==> values_well_formed(final(self)@),
    {
        match parse_vst07(line) {
            None => None,
            Some(r) => Some(self.apply_vst07(&r)),
        }
    }
}

proof fn lemma_value_listed(w: BreezartView, p: Parameter)
    requires
        w.values.contains_key(p),
    ensures
        all_values_spec(w).contains((parameter_name(p), w.values[p])),
{
    let all = all_values_spec(w);
    let e1 = entry_of(w, Parameter::PwrBtnState);
    let e2 = entry_of(w, Parameter::UnitState);
    let e3 = entry_of(w, Parameter::Tempr);
    let e4 = entry_of(w, Parameter::SpeedTarget);
    let k: int = match p {
        Parameter::PwrBtnState => 0,
        Parameter::UnitState => e1.len() as int,
        Parameter::Tempr => (e1.len() + e2.len()) as int,
        Parameter::SpeedTarget => (e1.len() + e2.len() + e3.len()) as int,
        Parameter::SpeedFact => (e1.len() + e2.len() + e3.len() + e4.len()) as int,
    };
    assert(all[k] == (parameter_name(p), w.values[p]));
}

/// A stored value is listed: after `value` is stored for `p`, the listing of
/// all values holds it under the channel name of `p`.
pub proof fn lemma_stored_value_listed(v: BreezartView, p: Parameter, value: Seq<char>)
    ensures
        all_values_spec(store_spec(v, p, value).0).contains((parameter_name(p), value)),
{
    lemma_value_listed(store_spec(v, p, value).0, p);
}

/// Only stored values are listed: every pair in the listing is the channel
/// name of a parameter with the value stored for it.
pub proof fn lemma_listed_values_stored(v: BreezartView, e: (Seq<char>, Seq<char>))
    requires
        all_values_spec(v).contains(e),
    ensures
        exists|p: Parameter| v.values.contains_key(p) && e == (parameter_name(p), v.values[p]),
{
    let all = all_values_spec(v);
    let k = choose|k: int| 0 <= k < all.len() && all[k] == e;
    let e1 = entry_of(v, Parameter::PwrBtnState);
    let e2 = entry_of(v, Parameter::UnitState);
    let e3 = entry_of(v, Parameter::Tempr);
    let e4 = entry_of(v, Parameter::SpeedTarget);
    let e5 = entry_of(v, Parameter::SpeedFact);
    let n1 = e1.len() as int;
    let n2 = n1 + e2.len();
    let n3 = n2 + e3.len();
    let n4 = n3 + e4.len();
    if k < n1 {
        assert(e == e1[k]);
    } else if k < n2 {
        assert(e == e2[k - n1]);
    } else if k < n3 {
        assert(e == e3[k - n2]);
    } else if k < n4 {
        assert(e == e4[k - n3]);
    } else {
        assert(e == e5[k - n4]);
    }
}

/// Storing the same value twice: the second store broadcasts nothing and
/// leaves the state as the first one left it.
pub proof fn lemma_store_idempotent(v: BreezartView, p: Parameter, value: Seq<char>)
    ensures
        store_spec(store_spec(v, p, value).0, p, value) == (store_spec(v, p, value).0, None::<
            (Seq<char>, Seq<char>),
        >),
{
    let w = store_spec(v, p, value).0;
    assert(w.values.insert(p, value) =~= w.values);
}

/// A changed value speeds polling up: after a stored value changes, the next
/// thirty polls use the short receive timeout.
pub proof fn lemma_change_speeds_up_polling(v: BreezartView, p: Parameter, value: Seq<char>)
    requires
        v.values.contains_key(p),
        v.values[p] != value,
    ensures
        store_spec(v, p, value).0.intensity == 30,
        store_spec(v, p, value).1 == Some((parameter_name(p), value)),
{
}

/// Distinct parameters have distinct channel names.
pub proof fn lemma_parameter_names_distinct(p: Parameter, q: Parameter)
    ensures
        parameter_name(p) == parameter_name(q) ==> p == q,
{
    reveal_strlit("Breezart.PwrBtnState");
    reveal_strlit("Breezart.UnitState");
    reveal_strlit("Breezart.Tempr");
    reveal_strlit("Breezart.SpeedTarget");
    reveal_strlit("Breezart.SpeedFact");
    if parameter_name(p) == parameter_name(q) && p != q {
        assert(parameter_name(p).len() == parameter_name(q).len());
        assert(parameter_name(p)[9] == parameter_name(q)[9]);
        assert(parameter_name(p)[10] == parameter_name(q)[10]);
    }
}

proof fn lemma_last_write_stored(
    v: BreezartView,
    writes: Seq<(Parameter, Seq<char>)>,
    k: int,
    p: Parameter,
    value: Seq<char>,
)
    requires
        0 <= k < writes.len(),
        writes[k] == (p, value),
        forall|i: int| k < i < writes.len() ==> writes[i].0 != p,
    ensures
        store_all(v, writes).0.values.contains_key(p),
        store_all(v, writes).0.values[p] == value,
    decreases writes.len(),
{
    if k < writes.len() - 1 {
        let w0 = writes.drop_last();
        assert forall|i: int| k < i < w0.len() implies w0[i].0 != p by {
            assert(w0[i] == writes[i]);
        }
        lemma_last_write_stored(v, w0, k, p, value);
    }
}

/// The last write of a parameter is what the listing shows for it: after a
/// list of writes in which `(p, value)` is the last write of `p` (later
/// writes go to other parameters), the listing of all values holds
/// `(<channel name of p>, value)` and no other pair under that name.
pub proof fn lemma_last_write_listed(
    v: BreezartView,
    writes: Seq<(Parameter, Seq<char>)>,
    k: int,
    p: Parameter,
    value: Seq<char>,
)
    requires
        0 <= k < writes.len(),
        writes[k] == (p, value),
        forall|i: int| k < i < writes.len() ==> writes[i].0 != p,
    ensures
        all_values_spec(store_all(v, writes).0).contains((parameter_name(p), value)),
        forall|y: Seq<char>|
            all_values_spec(store_all(v, writes).0).contains((parameter_name(p), y)) ==> y == value,
{
    let w = store_all(v, writes).0;
    lemma_last_write_stored(v, writes, k, p, value);
    lemma_value_listed(w, p);
    assert forall|y: Seq<char>| all_values_spec(w).contains((parameter_name(p), y)) implies y
        == value by {
        lemma_listed_values_stored(w, (parameter_name(p), y));
        let q = choose|q: Parameter|
            w.values.contains_key(q) && (parameter_name(p), y) == (parameter_name(q), w.values[q]);
        lemma_parameter_names_distinct(p, q);
    }
}

/// The largest number (plus one) that a parameter's value shows.
pub open spec fn value_bound(p: Parameter) -> nat {
    match p {
        Parameter::PwrBtnState => 2,
        Parameter::UnitState => 4,
        Parameter::Tempr => 128,
        Parameter::SpeedTarget => 16,
        Parameter::SpeedFact => 128,
    }
}

/// A value that a status line can give a parameter: a decimal number without
/// leading zeros, below the parameter's bound (the power button 0 or 1, the
/// unit state 0 to 3, the target speed 0 to 15, the temperature and the
/// actual speed 0 to 127).
pub open spec fn well_formed_value(p: Parameter, value: Seq<char>) -> bool {
    exists|n: nat| n < value_bound(p) && value == #[trigger] decimal(n)
}

/// Every stored value is well formed.
pub open spec fn values_well_formed(v: BreezartView) -> bool {
    forall|p: Parameter| #[trigger] v.values.contains_key(p) ==> well_formed_value(p, v.values[p])
}

/// Every write of a list is well formed.
pub open spec fn writes_well_formed(writes: Seq<(Parameter, Seq<char>)>) -> bool {
    forall|i: int| 0 <= i < writes.len() ==> well_formed_value(#[trigger] writes[i].0, writes[i].1)
}

proof fn lemma_store_all_well_formed(v: BreezartView, writes: Seq<(Parameter, Seq<char>)>)
    requires
        values_well_formed(v),
        writes_well_formed(writes),
    ensures
        values_well_formed(store_all(v, writes).0),
    decreases writes.len(),
{
    if writes.len() > 0 {
        let w0 = writes.drop_last();
        assert forall|i: int| 0 <= i < w0.len() implies well_formed_value(
            #[trigger] w0[i].0,
            w0[i].1,
        ) by {
            assert(w0[i] == writes[i]);
        }
        lemma_store_all_well_formed(v, w0);
        let v1 = store_all(v, w0).0;
        let (q, x) = writes.last();
        assert(well_formed_value(writes[writes.len() - 1].0, writes[writes.len() - 1].1));
        let v2 = store_spec(v1, q, x).0;
        assert forall|p: Parameter| #[trigger] v2.values.contains_key(p) implies well_formed_value(
            p,
            v2.values[p],
        ) by {
            if p != q {
                assert(v1.values.contains_key(p));
            }
        }
    }
}

proof fn lemma_writes_concat(a: Seq<(Parameter, Seq<char>)>, b: Seq<(Parameter, Seq<char>)>)
    requires
        writes_well_formed(a),
        writes_well_formed(b),
    ensures
        writes_well_formed(a + b),
{
    assert forall|i: int| 0 <= i < (a + b).len() implies well_formed_value(
        #[trigger] (a + b)[i].0,
        (a + b)[i].1,
    ) by {
        if i < a.len() {
            assert((a + b)[i] == a[i]);
        } else {
            assert((a + b)[i] == b[i - a.len()]);
        }
    }
}

proof fn lemma_decimal_well_formed(p: Parameter, n: nat)
    requires
        n < value_bound(p),
    ensures
        well_formed_value(p, decimal(n)),
{
}

proof fn lemma_vst07_writes_well_formed(r: Vst07)
    requires
        vst07_in_range(r),
    ensures
        writes_well_formed(vst07_writes(r)),
{
    let a: Seq<(Parameter, Seq<char>)> = match r.power {
        Some(bits) => seq![
            (Parameter::PwrBtnState, if bits % 2 == 1 {
                seq!['1']
            } else {
                seq!['0']
            }),
        ],
        None => seq![],
    };
    let b: Seq<(Parameter, Seq<char>)> = match r.unit {
        Some(bits) => seq![(Parameter::UnitState, decimal((bits % 4) as nat))],
        None => seq![],
    };
    let c: Seq<(Parameter, Seq<char>)> = match r.temperature {
        Some(bits) => seq![(Parameter::Tempr, decimal((bits % 256) as nat))],
        None => seq![],
    };
    let d: Seq<(Parameter, Seq<char>)> = match r.speed {
        Some(bits) => seq![
            (Parameter::SpeedTarget, decimal(((bits / 16) % 16) as nat)),
            (Parameter::SpeedFact, decimal(((bits / 256) % 256) as nat)),
        ],
        None => seq![],
    };
    if let Some(bits) = r.power {
        assert(decimal(1) == seq![crate::text::digit_char(1)]);
        assert(decimal(0) == seq![crate::text::digit_char(0)]);
        assert(crate::text::digit_char(1) == '1');
        assert(crate::text::digit_char(0) == '0');
        if bits % 2 == 1 {
            lemma_decimal_well_formed(Parameter::PwrBtnState, 1);
        } else {
            lemma_decimal_well_formed(Parameter::PwrBtnState, 0);
        }
        assert(a[0].0 == Parameter::PwrBtnState);
    }
    if let Some(bits) = r.unit {
        lemma_decimal_well_formed(Parameter::UnitState, (bits % 4) as nat);
        assert(b[0].0 == Parameter::UnitState);
    }
    if let Some(bits) = r.temperature {
        lemma_decimal_well_formed(Parameter::Tempr, (bits % 256) as nat);
        assert(c[0].0 == Parameter::Tempr);
    }
    if let Some(bits) = r.speed {
        lemma_decimal_well_formed(Parameter::SpeedTarget, ((bits / 16) % 16) as nat);
        lemma_decimal_well_formed(Parameter::SpeedFact, ((bits / 256) % 256) as nat);
        assert(d[0].0 == Parameter::SpeedTarget);
        assert(d[1].0 == Parameter::SpeedFact);
    }
    assert(writes_well_formed(a));
    assert(writes_well_formed(b));
    assert(writes_well_formed(c));
    assert(writes_well_formed(d));
    lemma_writes_concat(a, b);
    lemma_writes_concat(a + b, c);
    lemma_writes_concat(a + b + c, d);
    assert(vst07_writes(r) == a + b + c + d);
}

/// Status lines keep the stored values well formed: storing the values of an
/// in-range status line into well-formed values leaves them well formed.
/// Since the values start empty, every value that status lines store shows a
/// decimal number within its parameter's bound.
pub proof fn lemma_vst07_keeps_values_well_formed(v: BreezartView, r: Vst07)
    requires
        values_well_formed(v),
        vst07_in_range(r),
    ensures
        values_well_formed(store_all(v, vst07_writes(r)).0),
{
    lemma_vst07_writes_well_formed(r);
    lemma_store_all_well_formed(v, vst07_writes(r));
}

proof fn lemma_other_writes_keep(v: BreezartView, writes: Seq<(Parameter, Seq<char>)>, p: Parameter)
    requires
        forall|i: int| 0 <= i < writes.len() ==> writes[i].0 != p,
    ensures
        store_all(v, writes).0.values.contains_key(p) == v.values.contains_key(p),
        v.values.contains_key(p) ==> store_all(v, writes).0.values[p] == v.values[p],
    decreases writes.len(),
{
    if writes.len() > 0 {
        let w0 = writes.drop_last();
        assert forall|i: int| 0 <= i < w0.len() implies w0[i].0 != p by {
            assert(w0[i] == writes[i]);
        }
        lemma_other_writes_keep(v, w0, p);
        assert(writes.last().0 != p);
    }
}

proof fn lemma_sent_grows(v: BreezartView, writes: Seq<(Parameter, Seq<char>)>, k: int)
    requires
        0 <= k <= writes.len(),
    ensures
        store_all(v, writes.take(k)).1.len() <= store_all(v, writes).1.len(),
        store_all(v, writes).1.take(store_all(v, writes.take(k)).1.len() as int) == store_all(
            v,
            writes.take(k),
        ).1,
    decreases writes.len() - k,
{
    if k < writes.len() {
        lemma_sent_grows(v, writes, k + 1);
        let t = writes.take(k + 1);
        assert(t.drop_last() == writes.take(k));
        let a = store_all(v, writes.take(k)).1;
        let b = store_all(v, t).1;
        let c = store_all(v, writes).1;
        assert(b.take(a.len() as int) == a);
        assert(c.take(a.len() as int) == b.take(b.len() as int).take(a.len() as int));
    } else {
        assert(writes.take(k) == writes);
    }
}

/// A parameter written once in a list of writes: afterwards it holds the
/// written value, and the value was broadcast unless it was already stored.
proof fn lemma_single_write(
    v: BreezartView,
    writes: Seq<(Parameter, Seq<char>)>,
    k: int,
    p: Parameter,
    value: Seq<char>,
)
    requires
        0 <= k < writes.len(),
        writes[k] == (p, value),
        forall|i: int| 0 <= i < writes.len() && i != k ==> writes[i].0 != p,
    ensures
        store_all(v, writes).0.values.contains_key(p),
        store_all(v, writes).0.values[p] == value,
        !v.values.contains_key(p) || v.values[p] != value ==> store_all(v, writes).1.contains(
            (parameter_name(p), value),
        ),
{
    lemma_last_write_stored(v, writes, k, p, value);
    let pre = writes.take(k);
    assert forall|i: int| 0 <= i < pre.len() implies pre[i].0 != p by {
        assert(pre[i] == writes[i]);
    }
    lemma_other_writes_keep(v, pre, p);
    let upto = writes.take(k + 1);
    assert(upto.drop_last() == pre);
    assert(upto.last() == (p, value));
    let sent_upto = store_all(v, upto).1;
    if !v.values.contains_key(p) || v.values[p] != value {
        assert(sent_upto.last() == (parameter_name(p), value));
        lemma_sent_grows(v, writes, k + 1);
        let all = store_all(v, writes).1;
        assert(all[sent_upto.len() - 1] == all.take(sent_upto.len() as int)[sent_upto.len() - 1]);
    }
}

/// The order in which a status line writes the parameters.
pub open spec fn write_rank(p: Parameter) -> int {
    match p {
        Parameter::PwrBtnState => 0,
        Parameter::UnitState => 1,
        Parameter::Tempr => 2,
        Parameter::SpeedTarget => 3,
        Parameter::SpeedFact => 4,
    }
}

/// Writes whose parameters come in strictly increasing rank, all within
/// `[lo, hi)`.
pub open spec fn ranked(w: Seq<(Parameter, Seq<char>)>, lo: int, hi: int) -> bool {
    &&& forall|i: int| 0 <= i < w.len() ==> lo <= #[trigger] write_rank(w[i].0) && write_rank(w[i].0) < hi
    &&& forall|i: int, j: int| 0 <= i < j < w.len() ==> write_rank(w[i].0) < write_rank(w[j].0)
}

proof fn lemma_ranked_concat(a: Seq<(Parameter, Seq<char>)>, b: Seq<(Parameter, Seq<char>)>, lo: int, mid: int, hi: int)
    requires
        lo <= mid <= hi,
        ranked(a, lo, mid),
        ranked(b, mid, hi),
    ensures
        ranked(a + b, lo, hi),
{
    let c = a + b;
    assert forall|i: int| #![trigger c[i]] 0 <= i < c.len() implies lo <= write_rank(c[i].0) && write_rank(c[i].0) < hi by {
        if i < a.len() {
            assert(c[i] == a[i]);
            assert(lo <= write_rank(a[i].0) && write_rank(a[i].0) < mid);
        } else {
            assert(c[i] == b[i - a.len()]);
            assert(mid <= write_rank(b[i - a.len()].0) && write_rank(b[i - a.len()].0) < hi);
        }
    }
    assert forall|i: int, j: int| 0 <= i < j < c.len() implies write_rank(c[i].0) < write_rank(
        c[j].0,
    ) by {
        if i < a.len() {
            assert(c[i] == a[i]);
            assert(write_rank(a[i].0) < mid);
        } else {
            assert(c[i] == b[i - a.len()]);
        }
        if j < a.len() {
            assert(c[j] == a[j]);
        } else {
            assert(c[j] == b[j - a.len()]);
            assert(mid <= write_rank(b[j - a.len()].0));
        }
    }
}

proof fn lemma_vst07_writes_ranked(r: Vst07)
    ensures
        ranked(vst07_writes(r), 0, 5),
        forall|i: int, j: int|
            0 <= i < vst07_writes(r).len() && 0 <= j < vst07_writes(r).len() && i != j
                ==> vst07_writes(r)[i].0 != vst07_writes(r)[j].0,
{
    let a: Seq<(Parameter, Seq<char>)> = match r.power {
        Some(bits) => seq![
            (Parameter::PwrBtnState, if bits % 2 == 1 {
                seq!['1']
            } else {
                seq!['0']
            }),
        ],
        None => seq![],
    };
    let b: Seq<(Parameter, Seq<char>)> = match r.unit {
        Some(bits) => seq![(Parameter::UnitState, decimal((bits % 4) as nat))],
        None => seq![],
    };
    let c: Seq<(Parameter, Seq<char>)> = match r.temperature {
        Some(bits) => seq![(Parameter::Tempr, decimal((bits % 256) as nat))],
        None => seq![],
    };
    let d: Seq<(Parameter, Seq<char>)> = match r.speed {
        Some(bits) => seq![
            (Parameter::SpeedTarget, decimal(((bits / 16) % 16) as nat)),
            (Parameter::SpeedFact, decimal(((bits / 256) % 256) as nat)),
        ],
        None => seq![],
    };
    assert(ranked(a, 0, 1));
    assert(ranked(b, 1, 2));
    assert(ranked(c, 2, 3));
    assert(ranked(d, 3, 5));
    lemma_ranked_concat(a, b, 0, 1, 2);
    lemma_ranked_concat(a + b, c, 0, 2, 3);
    lemma_ranked_concat(a + b + c, d, 0, 3, 5);
    assert(vst07_writes(r) == a + b + c + d);
    let w = vst07_writes(r);
    assert forall|i: int, j: int| 0 <= i < w.len() && 0 <= j < w.len() && i != j implies w[i].0
        != w[j].0 by {
        if i < j {
            assert(write_rank(w[i].0) < write_rank(w[j].0));
        } else {
            assert(write_rank(w[j].0) < write_rank(w[i].0));
        }
    }
}

/// What a status line stores and broadcasts for each of its fields, in terms
/// of the captured fields themselves: the power button is bit 0 of the
/// first field (`1` or `0`), the unit state bits 0-1 of the second, the
/// temperature the low byte of the third, the target speed bits 4-7 and
/// the actual speed the high byte of the fifth, each in decimal. A field
/// whose value is stored anew, or differs from the value stored before, is
/// also broadcast under its channel name.
pub proof fn lemma_vst07_field_values(
    v: BreezartView,
    line: Seq<char>,
    f1: Seq<char>,
    f2: Seq<char>,
    f3: Seq<char>,
    f5: Seq<char>,
)
    requires
        vst07_captures(line) == Some((f1, f2, f3, f5)),
    ensures
        ({
            let (w, sent) = store_all(v, vst07_writes(parse_vst07_spec(line).unwrap()));
            &&& (hex_u16(f1) matches Some(bits) ==> {
                let x = if bits % 2 == 1 {
                    seq!['1']
                } else {
                    seq!['0']
                };
                &&& w.values.contains_key(Parameter::PwrBtnState)
                &&& w.values[Parameter::PwrBtnState] == x
                &&& (!v.values.contains_key(Parameter::PwrBtnState) || v.values[Parameter::PwrBtnState]
                    != x ==> sent.contains((parameter_name(Parameter::PwrBtnState), x)))
            })
            &&& (hex_u16(f2) matches Some(bits) ==> {
                let x = decimal((bits % 4) as nat);
                &&& w.values.contains_key(Parameter::UnitState)
                &&& w.values[Parameter::UnitState] == x
                &&& (!v.values.contains_key(Parameter::UnitState) || v.values[Parameter::UnitState]
                    != x ==> sent.contains((parameter_name(Parameter::UnitState), x)))
            })
            &&& (hex_u16(f3) matches Some(bits) ==> {
                let x = decimal((bits % 256) as nat);
                &&& w.values.contains_key(Parameter::Tempr)
                &&& w.values[Parameter::Tempr] == x
                &&& (!v.values.contains_key(Parameter::Tempr) || v.values[Parameter::Tempr] != x
                    ==> sent.contains((parameter_name(Parameter::Tempr), x)))
            })
            &&& (hex_u16(f5) matches Some(bits) ==> {
                let x = decimal(((bits / 16) % 16) as nat);
                let y = decimal(((bits / 256) % 256) as nat);
                &&& w.values.contains_key(Parameter::SpeedTarget)
                &&& w.values[Parameter::SpeedTarget] == x
                &&& (!v.values.contains_key(Parameter::SpeedTarget)
                    || v.values[Parameter::SpeedTarget] != x ==> sent.contains(
                    (parameter_name(Parameter::SpeedTarget), x),
                ))
                &&& w.values.contains_key(Parameter::SpeedFact)
                &&& w.values[Parameter::SpeedFact] == y
                &&& (!v.values.contains_key(Parameter::SpeedFact) || v.values[Parameter::SpeedFact]
                    != y ==> sent.contains((parameter_name(Parameter::SpeedFact), y)))
            })
        }),
{
    let r = parse_vst07_spec(line).unwrap();
    let writes = vst07_writes(r);
    lemma_vst07_writes_ranked(r);
    let la: int = if r.power is Some { 1 } else { 0 };
    let lb: int = if r.unit is Some { 1 } else { 0 };
    let lc: int = if r.temperature is Some { 1 } else { 0 };
    if let Some(bits) = r.power {
        let x = if bits % 2 == 1 { seq!['1'] } else { seq!['0'] };
        assert(writes[0] == (Parameter::PwrBtnState, x));
        lemma_single_write(v, writes, 0, Parameter::PwrBtnState, x);
    }
    if let Some(bits) = r.unit {
        let x = decimal((bits % 4) as nat);
        assert(writes[la] == (Parameter::UnitState, x));
        lemma_single_write(v, writes, la, Parameter::UnitState, x);
    }
    if let Some(bits) = r.temperature {
        let x = decimal((bits % 256) as nat);
        assert(writes[la + lb] == (Parameter::Tempr, x));
        lemma_single_write(v, writes, la + lb, Parameter::Tempr, x);
    }
    if let Some(bits) = r.speed {
        let x = decimal(((bits / 16) % 16) as nat);
        let y = decimal(((bits / 256) % 256) as nat);
        assert(writes[la + lb + lc] == (Parameter::SpeedTarget, x));
        assert(writes[la + lb + lc + 1] == (Parameter::SpeedFact, y));
        lemma_single_write(v, writes, la + lb + lc, Parameter::SpeedTarget, x);
        lemma_single_write(v, writes, la + lb + lc + 1, Parameter::SpeedFact, y);
    }
}

/// A value stored for a parameter that had none is always broadcast, under
/// the parameter's channel name, whatever the value; afterwards it is the
/// stored value.
pub proof fn lemma_new_value_broadcast(v: BreezartView, p: Parameter, value: Seq<char>)
    requires
        !v.values.contains_key(p),
    ensures
        store_spec(v, p, value).1 == Some((parameter_name(p), value)),
        store_spec(v, p, value).0.values[p] == value,
        store_spec(v, p, value).0.intensity == v.intensity,
{
}

/// A changed value is broadcast; a value equal to the stored one is not.
pub proof fn lemma_broadcast_iff_changed(v: BreezartView, p: Parameter, value: Seq<char>)
    ensures
        store_spec(v, p, value).1 is Some <==> (!v.values.contains_key(p) || v.values[p] != value),
        store_spec(v, p, value).1 matches Some(e) ==> e == (parameter_name(p), value),
        store_spec(v, p, value).0.values == v.values.insert(p, value),
{
}

/// What a set command for the unit comes to.
#[derive(Debug, PartialEq, Eq)]
pub enum SetOutcome {
    /// The channel is not one of the unit's: the command is left to others.
    NotBreezart,
    /// The value is not one the channel takes: nothing is sent.
    Invalid,
    /// The value is a number out of the channel's range: nothing is sent.
    Ignored,
    /// The request to queue for the unit.
    Enqueue(String),
}

/// The view of a set outcome: `None` for the channels of others, else the
/// request to queue, if any.
pub open spec fn set_outcome_spec(channel_name: Seq<char>, value: Seq<char>) -> SetOutcomeView {
    if channel_name == "Breezart.PwrBtn"@ {
        if value == "1"@ || value == "0"@ {
            SetOutcomeView::Enqueue("VWPwr_C5E4_"@ + value)
        } else {
            SetOutcomeView::Invalid
        }
    } else if channel_name == "Breezart.SpeedTarget"@ {
        match parse_unsigned_spec(value, 10, 255) {
            Some(v) => if v <= 10 {
                SetOutcomeView::Enqueue("VWSpd_C5E4_"@ + hex_upper(v))
            } else {
                SetOutcomeView::Ignored
            },
            None => SetOutcomeView::Invalid,
        }
    } else {
        SetOutcomeView::NotBreezart
    }
}

/// A set outcome with the request as characters.
pub enum SetOutcomeView {
    NotBreezart,
    Invalid,
    Ignored,
    Enqueue(Seq<char>),
}

impl View for SetOutcome {
    type V = SetOutcomeView;

    open spec fn view(&self) -> SetOutcomeView {
        match self {
            SetOutcome::NotBreezart => SetOutcomeView::NotBreezart,
            SetOutcome::Invalid => SetOutcomeView::Invalid,
            SetOutcome::Ignored => SetOutcomeView::Ignored,
            SetOutcome::Enqueue(s) => SetOutcomeView::Enqueue(s@),
        }
    }
}

/// A set command from a client, for the unit's channels: `Breezart.PwrBtn`
/// takes `1` or `0` and becomes `VWPwr_C5E4_<value>`; `Breezart.SpeedTarget`
/// takes a decimal `u8` and, when it is at most 10, becomes
/// `VWSpd_C5E4_<value in upper-case hex>`. Other channels are not the unit's.
pub fn send_set(channel_name: &str, value: &str) -> (res: SetOutcome)
    ensures
        res@ == set_outcome_spec(channel_name@, value@),
{
    let name = chars_of(channel_name);
    let v = chars_of(value);
    if chars_equal(&name, &chars_of("Breezart.PwrBtn")) {
        if chars_equal(&v, &chars_of("1")) || chars_equal(&v, &chars_of("0")) {
            let mut msg = String::from_str("VWPwr_C5E4_");
            push_chars(&mut msg, &v, 0, v.len());
            assert(v@.subrange(0, v@.len() as int) == v@);
            SetOutcome::Enqueue(msg)
        } else {
            SetOutcome::Invalid
        }
    } else if chars_equal(&name, &chars_of("Breezart.SpeedTarget")) {
        match parse_unsigned(&v, 0, v.len(), 10, 255) {
            Some(n) => {
                assert(v@.subrange(0, v@.len() as int) == v@);
                if n <= 10 {
                    let mut msg = String::from_str("VWSpd_C5E4_");
                    push_hex_upper(&mut msg, n);
                    SetOutcome::Enqueue(msg)
                } else {
                    SetOutcome::Ignored
                }
            },
            None => {
                assert(v@.subrange(0, v@.len() as int) == v@);
                SetOutcome::Invalid
            },
        }
    } else {
        SetOutcome::NotBreezart
    }
}

/// Every target speed from 0 to 10, written in decimal, becomes the
/// request `VWSpd_C5E4_<speed in upper-case hex>`; a speed from 11 to 255
/// is ignored and a larger number is invalid.
pub proof fn lemma_speed_target_commands(n: nat)
    ensures
        n <= 10 ==> set_outcome_spec("Breezart.SpeedTarget"@, decimal(n)) == SetOutcomeView::Enqueue(
            "VWSpd_C5E4_"@ + hex_upper(n),
        ),
        10 < n <= 255 ==> set_outcome_spec("Breezart.SpeedTarget"@, decimal(n))
            == SetOutcomeView::Ignored,
        255 < n ==> set_outcome_spec("Breezart.SpeedTarget"@, decimal(n))
            == SetOutcomeView::Invalid,
{
    reveal_strlit("Breezart.SpeedTarget");
    reveal_strlit("Breezart.PwrBtn");
    assert("Breezart.SpeedTarget"@.len() != "Breezart.PwrBtn"@.len());
    crate::text::lemma_decimal_reads_back(n);
}

/// The power button takes exactly `1` and `0`, each becoming the request
/// `VWPwr_C5E4_<value>`; any other value is invalid.
pub proof fn lemma_power_commands(value: Seq<char>)
    ensures
        value == seq!['1'] || value == seq!['0'] ==> set_outcome_spec("Breezart.PwrBtn"@, value)
            == SetOutcomeView::Enqueue("VWPwr_C5E4_"@ + value),
        value != seq!['1'] && value != seq!['0'] ==> set_outcome_spec("Breezart.PwrBtn"@, value)
            == SetOutcomeView::Invalid,
{
    reveal_strlit("1");
    reveal_strlit("0");
    assert("1"@ =~= seq!['1']);
    assert("0"@ =~= seq!['0']);
}

/// A channel that is neither `Breezart.PwrBtn` nor `Breezart.SpeedTarget`
/// is not the unit's, whatever the value.
pub proof fn lemma_other_channels(channel_name: Seq<char>, value: Seq<char>)
    requires
        channel_name != "Breezart.PwrBtn"@,
        channel_name != "Breezart.SpeedTarget"@,
    ensures
        set_outcome_spec(channel_name, value) == SetOutcomeView::NotBreezart,
{
}

/// The status request polled from the unit: `VSt07_C5E4`.
pub fn status_request() -> (res: String)
    ensures
        res@ == "VSt07_C5E4"@,
{
    String::from_str("VSt07_C5E4")
}

} // verus!
