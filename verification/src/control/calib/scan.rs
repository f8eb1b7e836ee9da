//! Which motor ids answer on a bus.
use vstd::prelude::*;
use vstd::string::*;

use crate::control::calib::bus_index;
use crate::hal::config::HardwareConfig;
use crate::hal::error::{config_error, Error};
use crate::hal::joint::{JointState, LegSlot, PerJoint};
use crate::text::{decimal, decimal_text, join_text, joined, views};

verus! {

/// The largest id to try: 8 unless told otherwise, within 1 to 32.
pub fn scan_limit(given: Option<usize>) -> (r: u8)
    ensures
        r == (match given {
            None => 8int,
            Some(n) => if n < 1 { 1 } else if n > 32 { 32 } else { n as int },
        }),
{
    match given {
        None => 8,
        Some(n) => if n < 1 {
            1
        } else if n > 32 {
            32
        } else {
            n as u8
        },
    }
}

/// Three ids from `id` on, as far as the limit goes.
pub open spec fn chunk(id: int, max_id: int) -> Seq<u8> {
    let last = if id + 2 < max_id { id + 2 } else { max_id };
    Seq::new((if last < id { 0 } else { last - id + 1 }) as nat, |i: int| (id + i) as u8)
}

/// The ids that one opening of the bus tries.
pub fn scan_chunk(id: u8, max_id: u8) -> (r: Vec<u8>)
    requires
        1 <= id <= max_id <= 32,
    ensures
        r@ == chunk(id as int, max_id as int),
        1 <= r.len() <= 3,
{
    let last: u8 = if id + 2 < max_id { id + 2 } else { max_id };
    let mut r: Vec<u8> = Vec::new();
    let mut next: u8 = id;
    while next <= last
        invariant
            1 <= id <= last <= 32,
            id <= next <= last + 1,
            r.len() == next - id,
            forall|i: int| 0 <= i < r.len() ==> r[i] == id + i,
        decreases last + 1 - next,
    {
        r.push(next);
        next = next + 1;
    }
    assert(r@ =~= chunk(id as int, max_id as int));
    r
}

/// The ids of all openings of the bus: from 1 to the limit, three at a time.
pub fn scan_chunks(max_id: u8) -> (r: Vec<Vec<u8>>)
    requires
        1 <= max_id <= 32,
    ensures
        r.len() == (max_id + 2) / 3,
        forall|i: int|
            0 <= i < r.len() ==> (#[trigger] r[i])@ == chunk(3 * i + 1, max_id as int) && 1
                <= r[i].len() <= 3,
{
    let mut r: Vec<Vec<u8>> = Vec::new();
    let mut id: u8 = 1;
    while id <= max_id
        invariant
            1 <= max_id <= 32,
            id == 3 * r.len() + 1,
            id <= max_id + 3,
            forall|i: int|
                0 <= i < r.len() ==> (#[trigger] r[i])@ == chunk(3 * i + 1, max_id as int) && 1
                    <= r[i].len() <= 3,
        decreases max_id + 3 - id,
    {
        r.push(scan_chunk(id, max_id));
        id = id + 3;
    }
    r
}

/// The first id at or below `from` that is not being tried.
pub open spec fn spare(ids: Seq<u8>, from: int) -> int
    decreases from,
{
    if from <= 0 || !ids.contains(from as u8) { from } else { spare(ids, from - 1) }
}

/// The id of the motor at a place while the given ids are tried: one of them, or,
/// where they run out, a spare one. A repeated id would confuse the answers.
pub open spec fn probe_id(ids: Seq<u8>, k: int) -> int
    decreases k,
{
    if k < ids.len() {
        ids[k] as int
    } else if k <= ids.len() {
        spare(ids, 32)
    } else {
        spare(ids, probe_id(ids, k - 1) - 1)
    }
}

/// Whether the configuration differs only in the ids of a leg's motors, which are
/// those of a probe.
pub open spec fn probes(old_hw: HardwareConfig, hw: HardwareConfig, i: int, ids: Seq<u8>, n: int) -> bool {
    let before = old_hw.legs.bus[i];
    let after = hw.legs.bus[i];
    &&& hw == (HardwareConfig { legs: hw.legs, ..old_hw })
    &&& hw.legs == (crate::hal::config::LegsConfig { bus: hw.legs.bus, ..old_hw.legs })
    &&& hw.legs.bus@ == old_hw.legs.bus@.update(i, after)
    &&& after.leg == before.leg
    &&& after.port == before.port
    &&& after.motors.len() == before.motors.len()
    &&& forall|k: int|
        0 <= k < after.motors.len() ==> #[trigger] after.motors[k] == (
        crate::hal::config::MotorConfig {
            id: if k < n { probe_id(ids, k) as u8 } else { before.motors[k].id },
            ..before.motors[k]
        })
}

/// Three ids of a probe are three different ids, none of them 0.
proof fn lemma_probe_ids_differ(ids: Seq<u8>)
    requires
        1 <= ids.len() <= 3,
        forall|i: int| 0 <= i < ids.len() ==> 1 <= #[trigger] ids[i] <= 32,
        forall|i: int, j: int| 0 <= i < j < ids.len() ==> ids[i] != ids[j],
    ensures
        1 <= probe_id(ids, 0) <= 32,
        1 <= probe_id(ids, 1) <= 32,
        1 <= probe_id(ids, 2) <= 32,
        probe_id(ids, 0) != probe_id(ids, 1),
        probe_id(ids, 0) != probe_id(ids, 2),
        probe_id(ids, 1) != probe_id(ids, 2),
{
    reveal_with_fuel(probe_id, 3);
    if ids.len() < 3 {
        lemma_spare(ids, 32);
    }
    if ids.len() == 1 {
        lemma_spare(ids, probe_id(ids, 1) - 1);
        assert(ids.contains(ids[0]));
    } else if ids.len() == 2 {
        assert(ids.contains(ids[0]) && ids.contains(ids[1]));
    } else {
        assert(ids[0] != ids[1] && ids[0] != ids[2] && ids[1] != ids[2]);
    }
}

/// Among more candidates than ids that are tried, one is spare.
proof fn lemma_spare(ids: Seq<u8>, from: int)
    requires
        1 <= ids.len() <= 2,
        4 <= from <= 32,
    ensures
        from - 2 <= spare(ids, from) <= from,
        !ids.contains(spare(ids, from) as u8),
{
    reveal_with_fuel(spare, 4);
    if ids.contains(from as u8) && ids.contains((from - 1) as u8) && ids.contains((from - 2) as u8) {
        let a = choose|i: int| 0 <= i < ids.len() && ids[i] == from as u8;
        let b = choose|i: int| 0 <= i < ids.len() && ids[i] == (from - 1) as u8;
        let c = choose|i: int| 0 <= i < ids.len() && ids[i] == (from - 2) as u8;
        assert(a != b && b != c && a != c);
    }
}

/// The configuration that tries the given ids on a leg, three motors at a time.
pub fn probe_config(hw: HardwareConfig, leg: LegSlot, ids: &Vec<u8>) -> (r: Result<HardwareConfig, Error>)
    requires
        hw.complaint() is None,
        1 <= ids.len() <= 3,
        forall|i: int| 0 <= i < ids.len() ==> 1 <= #[trigger] ids[i] <= 32,
        forall|i: int, j: int| 0 <= i < j < ids.len() ==> ids[i] != ids[j],
    ensures
        r is Ok,
        r->Ok_0.complaint() is None,
        exists|i: int| #[trigger] hw.first_bus_of(leg, i) && probes(hw, r->Ok_0, i, ids@, 3),
{
    proof {
        crate::hal::config::law_a_valid_configuration_is_wired_once(hw);
        lemma_probe_ids_differ(ids@);
    }
    let i: usize = match bus_index(&hw, leg) {
        Ok(i) => i,
        Err(e) => {
            assert(hw.has_leg(leg));
            return Err(config_error(e));
        },
    };
    let ghost before = hw;
    let mut hw = hw;
    let mut filler: u8 = 32;
    proof {
        assert(before.legs.bus[i as int].motors[0].id != 0);
        assert(hw.legs.bus@ =~= before.legs.bus@.update(i as int, hw.legs.bus[i as int]));
    }
    for k in 0usize..3
        invariant
            before.complaint() is None,
            before.first_bus_of(leg, i as int),
            before.legs.bus[i as int].motors.len() == 3,
            1 <= ids.len() <= 3,
            forall|j: int| 0 <= j < ids.len() ==> 1 <= #[trigger] ids[j] <= 32,
            forall|a: int, b: int| 0 <= a < b < ids.len() ==> ids[a] != ids[b],
            probes(before, hw, i as int, ids@, k as int),
            k <= ids.len() ==> filler == 32,
            k > ids.len() ==> filler == probe_id(ids@, k - 1) - 1,
            k > ids.len() ==> 35 - 3 * (k - ids.len()) - 3 <= filler <= 32,
            k <= 3,
    {
        let ghost start = hw;
        proof {
            if k >= ids.len() {
                lemma_spare(ids@, filler as int);
            }
        }
        let id: u8 = if k < ids.len() {
            ids[k]
        } else {
            let free: u8 = spare_id(ids, filler);
            filler = free - 1;
            free
        };
        assert(id == probe_id(ids@, k as int));
        hw.legs.bus[i].motors[k].id = id;
        proof {
            assert(hw.legs.bus@ =~= before.legs.bus@.update(i as int, hw.legs.bus[i as int]));
            let motors = hw.legs.bus[i as int].motors;
            assert forall|j: int| 0 <= j < motors.len() implies #[trigger] motors[j] == (
            crate::hal::config::MotorConfig {
                id: if j < k + 1 {
                    probe_id(ids@, j) as u8
                } else {
                    before.legs.bus[i as int].motors[j].id
                },
                ..before.legs.bus[i as int].motors[j]
            }) by {
                assert(start.legs.bus[i as int].motors[j] == (crate::hal::config::MotorConfig {
                    id: if j < k {
                        probe_id(ids@, j) as u8
                    } else {
                        before.legs.bus[i as int].motors[j].id
                    },
                    ..before.legs.bus[i as int].motors[j]
                }));
            }
        }
    }
    proof {
        lemma_probe_is_valid(before, hw, leg, i as int, ids@);
    }
    Ok(hw)
}

fn spare_id(ids: &Vec<u8>, from: u8) -> (r: u8)
    requires
        1 <= from,
    ensures
        r == spare(ids@, from as int),
    decreases from,
{
    let mut held: bool = false;
    let mut i: usize = 0;
    while i < ids.len()
        invariant
            i <= ids.len(),
            held <==> exists|j: int| 0 <= j < i && ids[j] == from,
        decreases ids.len() - i,
    {
        if ids[i] == from {
            held = true;
        }
        i = i + 1;
    }
    proof {
        if held {
            let j = choose|j: int| 0 <= j < ids.len() && ids[j] == from;
            assert(ids@[j] == from);
            assert(ids@.contains(from));
        } else if ids@.contains(from) {
            let j = choose|j: int| 0 <= j < ids@.len() && ids@[j] == from;
            assert(ids[j] == from);
        }
        reveal_with_fuel(spare, 2);
    }
    if !held {
        from
    } else if from == 1 {
        0
    } else {
        spare_id(ids, from - 1)
    }
}

/// New ids that differ and are not 0 leave a valid configuration valid.
proof fn lemma_probe_is_valid(before: HardwareConfig, after: HardwareConfig, leg: LegSlot, i: int, ids: Seq<u8>)
    requires
        before.complaint() is None,
        before.first_bus_of(leg, i),
        probes(before, after, i, ids, 3),
        before.legs.bus[i].motors.len() == 3,
        1 <= ids.len() <= 3,
        forall|j: int| 0 <= j < ids.len() ==> 1 <= #[trigger] ids[j] <= 32,
        forall|a: int, b: int| 0 <= a < b < ids.len() ==> ids[a] != ids[b],
    ensures
        after.complaint() is None,
{
    lemma_probe_ids_differ(ids);
    reveal_with_fuel(HardwareConfig::bus_complaint, 5);
    reveal_with_fuel(crate::hal::config::LegBusConfig::motor_complaint, 4);
    reveal_with_fuel(crate::hal::config::LegBusConfig::id_complaint, 4);
    let old_bus = before.legs.bus[i];
    let new_bus = after.legs.bus[i];
    assert forall|j: int| 0 <= j < 4 implies (#[trigger] before.legs.bus[j]).complaint() is None
        && LegSlot::named(before.legs.bus[j].leg@) is Some && !before.leg_repeats(j) by {
        assert(before.bus_complaint(0) is None);
    }
    assert(old_bus.complaint() is None);
    assert(new_bus.motors[0].complaint(new_bus.leg@, 0) is None) by {
        assert(old_bus.motors[0].complaint(old_bus.leg@, 0) is None);
    }
    assert(new_bus.motors[1].complaint(new_bus.leg@, 1) is None) by {
        assert(old_bus.motors[1].complaint(old_bus.leg@, 1) is None);
    }
    assert(new_bus.motors[2].complaint(new_bus.leg@, 2) is None) by {
        assert(old_bus.motors[2].complaint(old_bus.leg@, 2) is None);
    }
    assert(!new_bus.id_repeats(0) && !new_bus.id_repeats(1) && !new_bus.id_repeats(2));
    assert(new_bus.complaint() is None);
    assert forall|j: int| 0 <= j < 4 implies (#[trigger] after.legs.bus[j]).complaint() is None
        && LegSlot::named(after.legs.bus[j].leg@) is Some && !after.leg_repeats(j) by {
        assert(before.legs.bus[j].complaint() is None);
        if after.leg_repeats(j) {
            let h = choose|h: int|
                0 <= h < j && LegSlot::named((#[trigger] after.legs.bus[h]).leg@) == LegSlot::named(
                    after.legs.bus[j].leg@,
                );
            assert(LegSlot::named(before.legs.bus[h].leg@) == LegSlot::named(
                before.legs.bus[j].leg@,
            ));
            assert(before.leg_repeats(j));
        }
    }
    assert(after.legs.bus[0].complaint() is None);
    assert(after.legs.bus[1].complaint() is None);
    assert(after.legs.bus[2].complaint() is None);
    assert(after.legs.bus[3].complaint() is None);
}

/// The ids whose motors answered.
pub open spec fn answering(ids: Seq<u8>, states: PerJoint<JointState>, n: nat) -> Seq<u8>
    decreases n,
{
    if n == 0 {
        Seq::empty()
    } else {
        let before = answering(ids, states, (n - 1) as nat);
        if states.at(n - 1).ok { before.push(ids[n - 1]) } else { before }
    }
}

/// Adds the ids whose motors answered to those found so far.
pub fn collect_answers(found: &mut Vec<u8>, ids: &Vec<u8>, states: &PerJoint<JointState>)
    requires
        ids.len() <= 3,
    ensures
        final(found)@ == old(found)@ + answering(ids@, *states, ids.len() as nat),
{
    let ghost before = found@;
    let mut k: usize = 0;
    assert(before + Seq::<u8>::empty() =~= before);
    while k < ids.len()
        invariant
            k <= ids.len() <= 3,
            found@ == before + answering(ids@, *states, k as nat),
        decreases ids.len() - k,
    {
        if states.get(k).ok {
            found.push(ids[k]);
            assert(found@ =~= before + answering(ids@, *states, (k + 1) as nat));
        }
        k = k + 1;
    }
}

/// Ids in decimal.
pub open spec fn id_texts(ids: Seq<u8>) -> Seq<Seq<char>> {
    ids.map_values(|id: u8| decimal(id as nat))
}

fn id_list(ids: &Vec<u8>) -> (r: String)
    ensures
        r@ == joined(id_texts(ids@), ", "@),
{
    let mut texts: Vec<String> = Vec::new();
    for i in 0..ids.len()
        invariant
            texts.len() == i,
            forall|j: int| 0 <= j < i ==> (#[trigger] texts[j])@ == decimal(ids[j] as nat),
    {
        texts.push(decimal_text(ids[i] as u64));
    }
    assert(views(texts@) =~= id_texts(ids@));
    join_text(&texts, ", ")
}

/// What a scan of a bus says: which ids answered, and whether they are the
/// configured ones.
pub open spec fn scan_text(found: Seq<u8>, expected: Seq<u8>, baud: u32) -> Seq<char> {
    if found.len() == 0 {
        "応答なし（モータ電源とボーレート "@ + decimal(baud as nat) + " を確認）"@
    } else if found == expected {
        "id "@ + joined(id_texts(found), ", "@) + " が応答"@
    } else {
        "id "@ + joined(id_texts(found), ", "@) + " が応答"@ + "（設定は ["@ + joined(
            id_texts(expected),
            ", "@,
        ) + "]。食い違っています）"@
    }
}

pub fn scan_line(found: &Vec<u8>, expected: &Vec<u8>, baud: u32) -> (r: String)
    ensures
        r@ == scan_text(found@, expected@, baud),
{
    if found.len() == 0 {
        return "応答なし（モータ電源とボーレート ".to_owned().concat(
            decimal_text(baud as u64).as_str(),
        ).concat(" を確認）");
    }
    let head = "id ".to_owned().concat(id_list(found).as_str()).concat(" が応答");
    let mut same: bool = found.len() == expected.len();
    let mut i: usize = 0;
    while i < found.len() && same
        invariant
            i <= found.len(),
            same ==> found.len() == expected.len(),
            same ==> forall|j: int| 0 <= j < i ==> found[j] == expected[j],
            !same ==> found@ != expected@,
        decreases found.len() - i,
    {
        if found[i] != expected[i] {
            same = false;
        }
        i = i + 1;
    }
    if same {
        assert(found@ =~= expected@);
        head
    } else {
        head.concat("（設定は [").concat(id_list(expected).as_str()).concat("]。食い違っています）")
    }
}

/// The chunks of a scan try every id from 1 to the last once, three at most at a time.
pub proof fn law_every_id_is_tried(max_id: int, id: int)
    requires
        1 <= id <= max_id <= 32,
    ensures
        ({
            let i = (id - 1) / 3;
            &&& 0 <= i < (max_id + 2) / 3
            &&& chunk(3 * i + 1, max_id).contains(id as u8)
            &&& forall|j: int|
                0 <= j && j != i && 3 * j + 1 <= max_id ==> !(#[trigger] chunk(3 * j + 1, max_id)).contains(
                    id as u8,
                )
            &&& forall|j: int|
                0 <= j && 3 * j + 1 <= max_id ==> 1 <= (#[trigger] chunk(3 * j + 1, max_id)).len() <= 3
        }),
{
    let i = (id - 1) / 3;
    let own = chunk(3 * i + 1, max_id);
    assert(own[id - (3 * i + 1)] == id as u8);
}

/// Whether a motor of the first `n` answered to an id.
pub open spec fn answered(ids: Seq<u8>, states: PerJoint<JointState>, n: nat, id: u8) -> bool {
    exists|k: int| 0 <= k < n && (#[trigger] states.at(k)).ok && ids[k] == id
}

/// The ids that are found are exactly those whose motor answered.
pub proof fn law_the_ids_that_answer_are_found(ids: Seq<u8>, states: PerJoint<JointState>, n: nat)
    requires
        n <= ids.len(),
        n <= 3,
    ensures
        forall|k: int|
            0 <= k < n && (#[trigger] states.at(k)).ok ==> answering(ids, states, n).contains(ids[k]),
        forall|i: int|
            0 <= i < answering(ids, states, n).len() ==> answered(
                ids,
                states,
                n,
                #[trigger] answering(ids, states, n)[i],
            ),
    decreases n,
{
    if n > 0 {
        law_the_ids_that_answer_are_found(ids, states, (n - 1) as nat);
        let before = answering(ids, states, (n - 1) as nat);
        let all = answering(ids, states, n);
        assert forall|k: int| 0 <= k < n && (#[trigger] states.at(k)).ok implies all.contains(ids[k]) by {
            if k < n - 1 {
                let m = choose|m: int| 0 <= m < before.len() && before[m] == ids[k];
                assert(all[m] == ids[k]);
            } else {
                assert(all[before.len() as int] == ids[k]);
            }
        }
        assert forall|i: int| 0 <= i < all.len() implies answered(ids, states, n, #[trigger] all[i]) by {
            if i < before.len() {
                assert(all[i] == before[i]);
                assert(answered(ids, states, (n - 1) as nat, before[i]));
                let k = choose|k: int|
                    0 <= k < n - 1 && (#[trigger] states.at(k)).ok && ids[k] == before[i];
                assert(states.at(k).ok && ids[k] == all[i]);
            } else {
                assert(states.at(n - 1).ok && ids[n - 1] == all[i]);
            }
        }
    }
}

} // verus!
