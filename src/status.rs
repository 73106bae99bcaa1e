use vstd::prelude::*;
use crate::bytes::{split_bytes, split_spec, views};
use crate::decimal::{fixed_value, parse_fixed};

verus! {

/// Controller state as reported at the start of a status line.
#[derive(Clone, Copy, Debug, PartialEq, Eq, Structural)]
pub enum MachineState {
    Idle,
    Run,
    Hold,
    Jog,
    Home,
    Alarm,
    Door,
    Check,
    Sleep,
}

/// A position, each axis in ten-thousandths of a millimetre; `a` is the optional
/// fourth axis.
#[derive(Clone, Copy, Debug, PartialEq, Eq, Structural)]
pub struct Position {
    pub x: i64,
    pub y: i64,
    pub z: i64,
    pub a: Option<i64>,
}

/// A snapshot of the controller: state, work and machine positions, feed rate
/// (ten-thousandths of a millimetre per minute) and spindle speed (ten-thousandths
/// of a revolution per minute).
#[derive(Clone, Copy, Debug, PartialEq, Eq, Structural)]
pub struct MachineStatus {
    pub state: MachineState,
    pub work_position: Position,
    pub machine_position: Position,
    pub feed_rate: i64,
    pub spindle_speed: i64,
}

pub open spec fn origin() -> Position {
    Position { x: 0, y: 0, z: 0, a: None }
}

impl MachineStatus {
    /// Idle at the origin, not moving.
    pub fn idle() -> (r: MachineStatus)
        ensures
            r == (MachineStatus {
                state: MachineState::Idle,
                work_position: origin(),
                machine_position: origin(),
                feed_rate: 0,
                spindle_speed: 0,
            }),
    {
        MachineStatus {
            state: MachineState::Idle,
            work_position: Position { x: 0, y: 0, z: 0, a: None },
            machine_position: Position { x: 0, y: 0, z: 0, a: None },
            feed_rate: 0,
            spindle_speed: 0,
        }
    }
}

/// The state that a state name denotes.
pub open spec fn state_named(name: Seq<u8>) -> Option<MachineState> {
    if name == seq![73u8, 100u8, 108u8, 101u8] {
        Some(MachineState::Idle)
    } else if name == seq![82u8, 117u8, 110u8] {
        Some(MachineState::Run)
    } else if name == seq![72u8, 111u8, 108u8, 100u8] {
        Some(MachineState::Hold)
    } else if name == seq![74u8, 111u8, 103u8] {
        Some(MachineState::Jog)
    } else if name == seq![72u8, 111u8, 109u8, 101u8] {
        Some(MachineState::Home)
    } else if name == seq![65u8, 108u8, 97u8, 114u8, 109u8] {
        Some(MachineState::Alarm)
    } else if name == seq![68u8, 111u8, 111u8, 114u8] {
        Some(MachineState::Door)
    } else if name == seq![67u8, 104u8, 101u8, 99u8, 107u8] {
        Some(MachineState::Check)
    } else if name == seq![83u8, 108u8, 101u8, 101u8, 112u8] {
        Some(MachineState::Sleep)
    } else {
        None
    }
}

fn bytes_are(a: &Vec<u8>, lit: &[u8]) -> (r: bool)
    ensures
        r == (a@ == lit@),
{
    if a.len() != lit.len() {
        return false;
    }
    let mut i: usize = 0;
    while i < a.len()
        invariant
            i <= a@.len(),
            a@.len() == lit@.len(),
            forall|j: int| 0 <= j < i ==> a@[j] == lit@[j],
        decreases a@.len() - i,
    {
        if a[i] != lit[i] {
            return false;
        }
        i = i + 1;
    }
    assert(a@ =~= lit@);
    true
}

fn state_of(name: &Vec<u8>) -> (r: Option<MachineState>)
    ensures
        r == state_named(name@),
{
    let idle: [u8; 4] = [73u8, 100u8, 108u8, 101u8];
    assert(idle@ =~= seq![73u8, 100u8, 108u8, 101u8]);
    if bytes_are(name, &idle) {
        return Some(MachineState::Idle);
    }
    let run: [u8; 3] = [82u8, 117u8, 110u8];
    assert(run@ =~= seq![82u8, 117u8, 110u8]);
    if bytes_are(name, &run) {
        return Some(MachineState::Run);
    }
    let hold: [u8; 4] = [72u8, 111u8, 108u8, 100u8];
    assert(hold@ =~= seq![72u8, 111u8, 108u8, 100u8]);
    if bytes_are(name, &hold) {
        return Some(MachineState::Hold);
    }
    let jog: [u8; 3] = [74u8, 111u8, 103u8];
    assert(jog@ =~= seq![74u8, 111u8, 103u8]);
    if bytes_are(name, &jog) {
        return Some(MachineState::Jog);
    }
    let home: [u8; 4] = [72u8, 111u8, 109u8, 101u8];
    assert(home@ =~= seq![72u8, 111u8, 109u8, 101u8]);
    if bytes_are(name, &home) {
        return Some(MachineState::Home);
    }
    let alarm: [u8; 5] = [65u8, 108u8, 97u8, 114u8, 109u8];
    assert(alarm@ =~= seq![65u8, 108u8, 97u8, 114u8, 109u8]);
    if bytes_are(name, &alarm) {
        return Some(MachineState::Alarm);
    }
    let door: [u8; 4] = [68u8, 111u8, 111u8, 114u8];
    assert(door@ =~= seq![68u8, 111u8, 111u8, 114u8]);
    if bytes_are(name, &door) {
        return Some(MachineState::Door);
    }
    let check: [u8; 5] = [67u8, 104u8, 101u8, 99u8, 107u8];
    assert(check@ =~= seq![67u8, 104u8, 101u8, 99u8, 107u8]);
    if bytes_are(name, &check) {
        return Some(MachineState::Check);
    }
    let sleep: [u8; 5] = [83u8, 108u8, 101u8, 101u8, 112u8];
    assert(sleep@ =~= seq![83u8, 108u8, 101u8, 101u8, 112u8]);
    if bytes_are(name, &sleep) {
        return Some(MachineState::Sleep);
    }
    None
}

/// A position field's value: three or four comma-separated numbers.
pub open spec fn position_spec(v: Seq<u8>) -> Option<Position> {
    let parts = split_spec(v, 44u8);
    if (parts.len() == 3 || parts.len() == 4) && fixed_value(parts[0]) is Some && fixed_value(
        parts[1],
    ) is Some && fixed_value(parts[2]) is Some && (parts.len() == 4 ==> fixed_value(
        parts[3],
    ) is Some) {
        Some(
            Position {
                x: fixed_value(parts[0])->Some_0 as i64,
                y: fixed_value(parts[1])->Some_0 as i64,
                z: fixed_value(parts[2])->Some_0 as i64,
                a: if parts.len() == 4 {
                    Some(fixed_value(parts[3])->Some_0 as i64)
                } else {
                    None
                },
            },
        )
    } else {
        None
    }
}

/// What the fields after the state have given so far.
#[derive(Clone, Copy)]
pub struct Fields {
    pub work: Option<Position>,
    pub machine: Option<Position>,
    pub offset: Option<Position>,
    pub feed: i64,
    pub spindle: i64,
}

pub open spec fn no_fields() -> Fields {
    Fields { work: None, machine: None, offset: None, feed: 0, spindle: 0 }
}

/// Takes one `Key:value` field. `WPos`, `MPos`, `WCO`, `F` and `FS` must be well
/// formed; other fields are ignored.
pub open spec fn apply_field(acc: Fields, f: Seq<u8>) -> Option<Fields> {
    let kv = split_spec(f, 58u8);
    let key = kv[0];
    if key == seq![87u8, 67u8, 79u8] {
        if kv.len() == 2 && position_spec(kv[1]) is Some {
            Some(Fields { offset: position_spec(kv[1]), ..acc })
        } else {
            None
        }
    } else if key == seq![87u8, 80u8, 111u8, 115u8] || key == seq![77u8, 80u8, 111u8, 115u8] {
        if kv.len() == 2 && position_spec(kv[1]) is Some {
            if key[0] == 87u8 {
                Some(Fields { work: position_spec(kv[1]), ..acc })
            } else {
                Some(Fields { machine: position_spec(kv[1]), ..acc })
            }
        } else {
            None
        }
    } else if key == seq![70u8] {
        if kv.len() == 2 && fixed_value(kv[1]) is Some {
            Some(Fields { feed: fixed_value(kv[1])->Some_0 as i64, ..acc })
        } else {
            None
        }
    } else if key == seq![70u8, 83u8] {
        let parts = split_spec(kv[1], 44u8);
        if kv.len() == 2 && parts.len() == 2 && fixed_value(parts[0]) is Some && fixed_value(
            parts[1],
        ) is Some {
            Some(
                Fields {
                    feed: fixed_value(parts[0])->Some_0 as i64,
                    spindle: fixed_value(parts[1])->Some_0 as i64,
                    ..acc
                },
            )
        } else {
            None
        }
    } else {
        Some(acc)
    }
}

pub open spec fn apply_fields(acc: Fields, fs: Seq<Seq<u8>>) -> Option<Fields>
    decreases fs.len(),
{
    if fs.len() == 0 {
        Some(acc)
    } else {
        match apply_field(acc, fs[0]) {
            Some(a) => apply_fields(a, fs.drop_first()),
            None => None,
        }
    }
}

pub open spec fn fits_i64(v: int) -> bool {
    i64::MIN <= v <= i64::MAX
}

/// A position moved by an offset (`plus`) or back by it; `None` when a
/// coordinate leaves the `i64` range. The fourth axis follows the position: it is
/// moved when both carry one, kept when only the position does.
pub open spec fn shift(p: Position, o: Position, plus: bool) -> Option<Position> {
    let x = if plus { p.x + o.x } else { p.x - o.x };
    let y = if plus { p.y + o.y } else { p.y - o.y };
    let z = if plus { p.z + o.z } else { p.z - o.z };
    let a: Option<int> = match (p.a, o.a) {
        (Some(pa), Some(oa)) => Some(if plus { pa + oa } else { pa - oa }),
        (Some(pa), None) => Some(pa as int),
        _ => None,
    };
    if fits_i64(x) && fits_i64(y) && fits_i64(z) && (a is Some ==> fits_i64(a->Some_0)) {
        Some(
            Position {
                x: x as i64,
                y: y as i64,
                z: z as i64,
                a: match a {
                    Some(v) => Some(v as i64),
                    None => None,
                },
            },
        )
    } else {
        None
    }
}

/// Work and machine positions of a report. A report carries at least one of
/// them; the other follows from the work coordinate offset `WCO` (machine = work
/// + offset) when the report carries it, and equals the one given otherwise.
pub open spec fn positions_spec(fv: Fields) -> Option<(Position, Position)> {
    match (fv.work, fv.machine, fv.offset) {
        (Some(w), Some(m), _) => Some((w, m)),
        (Some(w), None, Some(o)) => match shift(w, o, true) {
            Some(m) => Some((w, m)),
            None => None,
        },
        (None, Some(m), Some(o)) => match shift(m, o, false) {
            Some(w) => Some((w, m)),
            None => None,
        },
        (Some(w), None, None) => Some((w, w)),
        (None, Some(m), None) => Some((m, m)),
        _ => None,
    }
}

/// A status report `<State|WPos:x,y,z|MPos:x,y,z|F:feed|...>`: framed by `<` and
/// `>`, fields separated by `|`, the state first (a known name, optionally
/// followed by `:` and a sub-state), at least one position present.
pub open spec fn status_spec(s: Seq<u8>) -> Option<MachineStatus> {
    if s.len() >= 2 && s[0] == 60u8 && s.last() == 62u8 {
        let fields = split_spec(s.subrange(1, s.len() - 1), 124u8);
        let st = state_named(split_spec(fields[0], 58u8)[0]);
        let fv = apply_fields(no_fields(), fields.drop_first());
        if st is Some && fv is Some && positions_spec(fv->Some_0) is Some {
            Some(
                MachineStatus {
                    state: st->Some_0,
                    work_position: positions_spec(fv->Some_0)->Some_0.0,
                    machine_position: positions_spec(fv->Some_0)->Some_0.1,
                    feed_rate: fv->Some_0.feed,
                    spindle_speed: fv->Some_0.spindle,
                },
            )
        } else {
            None
        }
    } else {
        None
    }
}

fn shift_coord(p: i64, o: i64, plus: bool) -> (r: Option<i64>)
    ensures
        match r {
            Some(v) => v as int == (if plus { p + o } else { p - o }),
            None => !fits_i64(if plus { p + o } else { p - o }),
        },
{
    let v: i128 = if plus { p as i128 + o as i128 } else { p as i128 - o as i128 };
    if v < i64::MIN as i128 || v > i64::MAX as i128 {
        None
    } else {
        Some(v as i64)
    }
}

fn shift_position(p: Position, o: Position, plus: bool) -> (r: Option<Position>)
    ensures
        r == shift(p, o, plus),
{
    let x = shift_coord(p.x, o.x, plus);
    let y = shift_coord(p.y, o.y, plus);
    let z = shift_coord(p.z, o.z, plus);
    let a: Option<i64> = match (p.a, o.a) {
        (Some(pa), Some(oa)) => match shift_coord(pa, oa, plus) {
            Some(v) => Some(v),
            None => {
                return None;
            },
        },
        (Some(pa), None) => Some(pa),
        _ => None,
    };
    match (x, y, z) {
        (Some(x), Some(y), Some(z)) => Some(Position { x, y, z, a }),
        _ => None,
    }
}

fn positions(fv: Fields) -> (r: Option<(Position, Position)>)
    ensures
        r == positions_spec(fv),
{
    match (fv.work, fv.machine, fv.offset) {
        (Some(w), Some(m), _) => Some((w, m)),
        (Some(w), None, Some(o)) => match shift_position(w, o, true) {
            Some(m) => Some((w, m)),
            None => None,
        },
        (None, Some(m), Some(o)) => match shift_position(m, o, false) {
            Some(w) => Some((w, m)),
            None => None,
        },
        (Some(w), None, None) => Some((w, w)),
        (None, Some(m), None) => Some((m, m)),
        _ => None,
    }
}

fn parse_position(v: &Vec<u8>) -> (r: Option<Position>)
    ensures
        r == position_spec(v@),
{
    let parts = split_bytes(v, 44u8);
    proof {
        assert(parts@.len() == split_spec(v@, 44u8).len());
    }
    let n = parts.len();
    if n != 3 && n != 4 {
        return None;
    }
    assert(parts@[0]@ == split_spec(v@, 44u8)[0]);
    assert(parts@[1]@ == split_spec(v@, 44u8)[1]);
    assert(parts@[2]@ == split_spec(v@, 44u8)[2]);
    let x = parse_fixed(&parts[0]);
    let y = parse_fixed(&parts[1]);
    let z = parse_fixed(&parts[2]);
    if x.is_none() || y.is_none() || z.is_none() {
        return None;
    }
    let a = if n == 4 {
        assert(parts@[3]@ == split_spec(v@, 44u8)[3]);
        match parse_fixed(&parts[3]) {
            Some(a) => Some(a),
            None => {
                return None;
            },
        }
    } else {
        None
    };
    Some(Position { x: x.unwrap(), y: y.unwrap(), z: z.unwrap(), a })
}

fn parse_field(acc: Fields, f: &Vec<u8>) -> (r: Option<Fields>)
    ensures
        r == apply_field(acc, f@),
{
    let kv = split_bytes(f, 58u8);
    proof {
        assert(kv@.len() == split_spec(f@, 58u8).len());
        assert(kv@[0]@ == split_spec(f@, 58u8)[0]);
        if kv@.len() == 2 {
            assert(kv@[1]@ == split_spec(f@, 58u8)[1]);
        }
    }
    let wpos: [u8; 4] = [87u8, 80u8, 111u8, 115u8];
    let mpos: [u8; 4] = [77u8, 80u8, 111u8, 115u8];
    let feed: [u8; 1] = [70u8];
    let fs: [u8; 2] = [70u8, 83u8];
    assert(wpos@ =~= seq![87u8, 80u8, 111u8, 115u8]);
    assert(mpos@ =~= seq![77u8, 80u8, 111u8, 115u8]);
    assert(feed@ =~= seq![70u8]);
    assert(fs@ =~= seq![70u8, 83u8]);
    let wco: [u8; 3] = [87u8, 67u8, 79u8];
    assert(wco@ =~= seq![87u8, 67u8, 79u8]);
    if bytes_are(&kv[0], &wco) {
        if kv.len() != 2 {
            return None;
        }
        let p = parse_position(&kv[1]);
        return match p {
            Some(_) => Some(Fields { offset: p, ..acc }),
            None => None,
        };
    }
    let is_w = bytes_are(&kv[0], &wpos);
    let is_m = bytes_are(&kv[0], &mpos);
    if is_w || is_m {
        if kv.len() != 2 {
            return None;
        }
        let p = parse_position(&kv[1]);
        match p {
            Some(_) => {
                if is_w {
                    Some(Fields { work: p, ..acc })
                } else {
                    Some(Fields { machine: p, ..acc })
                }
            },
            None => None,
        }
    } else if bytes_are(&kv[0], &feed) {
        if kv.len() != 2 {
            return None;
        }
        match parse_fixed(&kv[1]) {
            Some(v) => Some(Fields { feed: v, ..acc }),
            None => None,
        }
    } else if bytes_are(&kv[0], &fs) {
        if kv.len() != 2 {
            return None;
        }
        let parts = split_bytes(&kv[1], 44u8);
        proof {
            assert(parts@.len() == split_spec(kv@[1]@, 44u8).len());
        }
        if parts.len() != 2 {
            return None;
        }
        assert(parts@[0]@ == split_spec(kv@[1]@, 44u8)[0]);
        assert(parts@[1]@ == split_spec(kv@[1]@, 44u8)[1]);
        let fr = parse_fixed(&parts[0]);
        let sp = parse_fixed(&parts[1]);
        match (fr, sp) {
            (Some(a), Some(b)) => Some(Fields { feed: a, spindle: b, ..acc }),
            _ => None,
        }
    } else {
        Some(acc)
    }
}

/// Parses a status report line (CR and LF already removed). `None` for any line
/// that is not a complete, well-formed report.
pub fn parse_status_line(s: &Vec<u8>) -> (r: Option<MachineStatus>)
    ensures
        r == status_spec(s@),
{
    let n = s.len();
    if n < 2 || s[0] != 60u8 || s[n - 1] != 62u8 {
        return None;
    }
    let mut body: Vec<u8> = Vec::new();
    let mut i: usize = 1;
    while i < n - 1
        invariant
            1 <= i <= n - 1,
            n == s@.len(),
            body@ =~= s@.subrange(1, i as int),
        decreases n - 1 - i,
    {
        body.push(s[i]);
        i = i + 1;
    }
    let fields = split_bytes(&body, 124u8);
    let ghost fs = split_spec(s@.subrange(1, n - 1), 124u8);
    assert(fields@.len() == fs.len());
    assert(fields@[0]@ == fs[0]);
    let head = split_bytes(&fields[0], 58u8);
    assert(head@.len() == split_spec(fs[0], 58u8).len());
    assert(head@[0]@ == split_spec(fs[0], 58u8)[0]);
    let st = state_of(&head[0]);
    let mut acc = Fields { work: None, machine: None, offset: None, feed: 0, spindle: 0 };
    let mut k: usize = 1;
    assert(fs.drop_first().skip(0) =~= fs.drop_first());
    while k < fields.len()
        invariant
            1 <= k <= fields@.len(),
            n == s@.len(),
            n >= 2 && s@[0] == 60u8 && s@[n - 1] == 62u8,
            fs == split_spec(s@.subrange(1, n - 1), 124u8),
            st == state_named(split_spec(fs[0], 58u8)[0]),
            views(fields@) == fs,
            fields@.len() == fs.len(),
            apply_fields(no_fields(), fs.drop_first()) == apply_fields(acc, fs.skip(k as int)),
        decreases fields@.len() - k,
    {
        assert(fields@[k as int]@ == fs[k as int]);
        let next = parse_field(acc, &fields[k]);
        assert(fs.skip(k as int)[0] == fs[k as int]);
        assert(fs.skip(k as int).drop_first() =~= fs.skip(k + 1));
        match next {
            Some(a) => {
                acc = a;
            },
            None => {
                assert(apply_fields(acc, fs.skip(k as int)) is None);
                assert(apply_fields(no_fields(), fs.drop_first()) is None);
                return None;
            },
        }
        k = k + 1;
    }
    assert(fs.skip(k as int) =~= Seq::<Seq<u8>>::empty());
    match (st, positions(acc)) {
        (Some(state), Some((w, m))) => Some(
            MachineStatus {
                state,
                work_position: w,
                machine_position: m,
                feed_rate: acc.feed,
                spindle_speed: acc.spindle,
            },
        ),
        _ => None,
    }
}

} // verus!
