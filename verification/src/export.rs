//! Files that a trainer writes now and then.
use crate::text::{
    all_digits, decimal, digit_of, digits_value, is_digit, lemma_decimal_digits, lemma_decimal_is_read_back, to_decimal,
};
use crate::trainer::FrameId;
use vstd::prelude::*;

verus! {

/// What is written about an export.
#[derive(Clone, Copy, Debug, PartialEq, Eq)]
pub struct MetaInfo {
    pub timestamp_ns: u128,
    pub train_view_count: usize,
    pub host_view_count: usize,
    pub num_splats: u32,
}

/// A name followed by an ending.
pub fn file_name(stem: &str, ending: &str) -> (name: String)
    ensures
        name@ == stem@ + ending@,
{
    let mut name = String::from_str(stem);
    name.append(ending);
    name
}

/// The names of the files of an export.
pub struct ExportFiles {
    pub ply: String,
    pub poses: String,
    pub meta_info: String,
}

/// The files of an export are named by its time.
pub fn export_files(timestamp_ns: u128) -> (files: ExportFiles)
    ensures
        files.ply@ == decimal(timestamp_ns as nat) + ".ply"@,
        files.poses@ == decimal(timestamp_ns as nat) + ".tum"@,
        files.meta_info@ == decimal(timestamp_ns as nat) + ".json"@,
{
    let stem = to_decimal(timestamp_ns);
    ExportFiles {
        ply: file_name(stem.as_str(), ".ply"),
        poses: file_name(stem.as_str(), ".tum"),
        meta_info: file_name(stem.as_str(), ".json"),
    }
}

/// Whether entry `a` comes before entry `b`: by key, and among equal keys by
/// position.
pub open spec fn comes_before(keys: Seq<FrameId>, a: usize, b: usize) -> bool {
    keys[a as int] < keys[b as int] || (keys[a as int] == keys[b as int] && a < b)
}

/// Whether the order lists the first `n` entries, each once, by key and among
/// equal keys by position.
pub open spec fn is_order(order: Seq<usize>, keys: Seq<FrameId>, n: nat) -> bool {
    &&& order.len() == n
    &&& forall|p: int| 0 <= p < order.len() ==> (#[trigger] order[p]) < n
    &&& forall|p: int, q: int|
        0 <= p < q < order.len() ==> comes_before(keys, #[trigger] order[p], #[trigger] order[q])
}

/// A list of `n` distinct numbers below `n` leaves out none of them.
pub proof fn lemma_permutation_is_complete(order: Seq<usize>, n: nat, i: usize)
    requires
        order.len() == n,
        order.no_duplicates(),
        forall|p: int| 0 <= p < order.len() ==> (#[trigger] order[p]) < n,
        i < n,
    ensures
        order.contains(i),
{
    if !order.contains(i) {
        let all = order.push(i).map_values(|k: usize| k as int);
        let range = vstd::set_lib::set_int_range(0, n as int);
        assert(all.no_duplicates()) by {
            assert forall|p: int, q: int| 0 <= p < all.len() && 0 <= q < all.len() && p != q implies all[p]
                != all[q] by {
                if p == order.len() {
                    assert(order.contains(order[q]));
                } else if q == order.len() {
                    assert(order.contains(order[p]));
                }
            }
        }
        all.unique_seq_to_set();
        assert forall|x: int| all.to_set().contains(x) implies range.contains(x) by {
            let p = all.index_of(x);
            if p < order.len() {
                assert(order[p] < n);
            }
        }
        vstd::set_lib::lemma_int_range(0, n as int);
        vstd::set_lib::lemma_len_subset(all.to_set(), range);
        assert(false);
    }
}

/// Ordering by key leaves out no entry.
pub proof fn lemma_order_is_complete(order: Seq<usize>, keys: Seq<FrameId>, n: nat, i: usize)
    requires
        is_order(order, keys, n),
        i < n,
    ensures
        order.contains(i),
{
    assert(order.no_duplicates()) by {
        assert forall|p: int, q: int| 0 <= p < order.len() && 0 <= q < order.len() && p != q implies order[p]
            != order[q] by {
            if p < q {
                assert(comes_before(keys, order[p], order[q]));
            } else {
                assert(comes_before(keys, order[q], order[p]));
            }
        }
    }
    lemma_permutation_is_complete(order, n, i);
}

/// Orders entries by key. Entries with equal keys stay in their order.
pub fn stable_order(keys: &Vec<FrameId>) -> (order: Vec<usize>)
    ensures
        is_order(order@, keys@, keys@.len()),
{
    let n: usize = keys.len();
    let mut order: Vec<usize> = Vec::new();
    for i in 0..n
        invariant
            n == keys@.len(),
            is_order(order@, keys@, i as nat),
    {
        let mut p: usize = order.len();
        while p > 0 && keys[order[p - 1]] > keys[i]
            invariant
                p <= order@.len(),
                i < keys@.len(),
                is_order(order@, keys@, i as nat),
                forall|q: int| p <= q < order@.len() ==> keys@[(#[trigger] order@[q]) as int] > keys@[i as int],
            decreases p,
        {
            p = p - 1;
        }
        let ghost before = order@;
        order.insert(p, i);
        proof {
            assert(order@ =~= before.insert(p as int, i));
            assert forall|a: int, b: int| 0 <= a < b < order@.len() implies comes_before(
                keys@,
                #[trigger] order@[a],
                #[trigger] order@[b],
            ) by {
                let a0 = if a < p {
                    a
                } else {
                    a - 1
                };
                let b0 = if b < p {
                    b
                } else {
                    b - 1
                };
                if b == p {
                    assert(order@[a] == before[a]);
                    if p > 0 {
                        assert(a == p - 1 || comes_before(keys@, before[a], before[p - 1]));
                    }
                } else if a == p {
                    assert(order@[b] == before[b0]);
                } else {
                    assert(order@[a] == before[a0]);
                    assert(order@[b] == before[b0]);
                    assert(comes_before(keys@, before[a0], before[b0]));
                }
            }
            assert forall|q: int| 0 <= q < order@.len() implies (#[trigger] order@[q]) < i + 1 by {
                if q < p {
                    assert(order@[q] == before[q]);
                } else if q > p {
                    assert(order@[q] == before[q - 1]);
                }
            }
        }
    }
    order
}

/// Nanoseconds per second.
pub const NANOS: u64 = 1_000_000_000;

/// Nine digits, with zeros in front.
pub open spec fn nine_digits(n: nat) -> Seq<char> {
    decimal(NANOS as nat + n).skip(1)
}

/// A time in seconds, to the nanosecond.
pub open spec fn seconds(ns: int) -> Seq<char> {
    let magnitude: nat = if ns < 0 {
        (-ns) as nat
    } else {
        ns as nat
    };
    let text = decimal(magnitude / NANOS as nat) + "."@ + nine_digits(magnitude % NANOS as nat);
    if ns < 0 {
        "-"@ + text
    } else {
        text
    }
}

/// A pose of a trajectory: the frame, and position and orientation as texts.
pub struct TumPose {
    pub frame_id: FrameId,
    pub fields: Vec<String>,
}

/// Texts, each behind a blank.
pub open spec fn spaced(fields: Seq<String>) -> Seq<char>
    decreases fields.len(),
{
    if fields.len() == 0 {
        Seq::empty()
    } else {
        spaced(fields.drop_last()) + " "@ + fields.last()@
    }
}

/// A trajectory in the TUM format: one pose per line, the time in seconds
/// first.
pub open spec fn trajectory(poses: Seq<TumPose>) -> Seq<char>
    decreases poses.len(),
{
    if poses.len() == 0 {
        Seq::empty()
    } else {
        trajectory(poses.drop_last()) + seconds(poses.last().frame_id as int) + spaced(poses.last().fields@) + "\n"@
    }
}

fn to_seconds(ns: i64) -> (text: String)
    ensures
        text@ == seconds(ns as int),
{
    let magnitude: u128 = if ns < 0 {
        (-(ns as i128)) as u128
    } else {
        ns as u128
    };
    let mut text = if ns < 0 {
        String::from_str("-")
    } else {
        String::from_str("")
    };
    let whole = to_decimal(magnitude / NANOS as u128);
    let digits = to_decimal(NANOS as u128 + magnitude % NANOS as u128);
    proof {
        reveal_strlit("");
        let n = (NANOS + magnitude % NANOS as u128) as nat;
        lemma_decimal_len(n);
    }
    let fraction = digits.as_str().substring_char(1, 10);
    text.append(whole.as_str());
    text.append(".");
    text.append(fraction);
    assert(text@ =~= seconds(ns as int));
    text
}

proof fn lemma_decimal_len(n: nat)
    requires
        NANOS <= n < 2 * NANOS,
    ensures
        decimal(n).len() == 10,
{
    reveal_with_fuel(decimal, 11);
}

/// Writes a trajectory in the TUM format.
pub fn tum_trajectory(poses: &Vec<TumPose>) -> (text: String)
    ensures
        text@ == trajectory(poses@),
{
    let mut text = String::new();
    let n: usize = poses.len();
    for i in 0..n
        invariant
            n == poses@.len(),
            text@ == trajectory(poses@.take(i as int)),
    {
        let pose = &poses[i];
        proof {
            assert(poses@.take(i + 1).drop_last() =~= poses@.take(i as int));
        }
        let ghost before = text@;
        let time = to_seconds(pose.frame_id);
        text.append(time.as_str());
        let ghost with_time = text@;
        let fields: usize = pose.fields.len();
        assert(with_time + spaced(pose.fields@.take(0)) =~= with_time);
        for j in 0..fields
            invariant
                fields == pose.fields@.len(),
                text@ == with_time + spaced(pose.fields@.take(j as int)),
        {
            proof {
                assert(pose.fields@.take(j + 1).drop_last() =~= pose.fields@.take(j as int));
            }
            text.append(" ");
            text.append(pose.fields[j].as_str());
            assert(text@ =~= with_time + spaced(pose.fields@.take(j + 1)));
        }
        assert(pose.fields@.take(fields as int) =~= pose.fields@);
        text.append("\n");
        assert(text@ =~= trajectory(poses@.take(i + 1)));
    }
    assert(poses@.take(n as int) =~= poses@);
    text
}

/// Entries come in the order of their keys, and those of equal keys in the order
/// in which they were given.
pub proof fn lemma_order_is_stable(order: Seq<usize>, keys: Seq<FrameId>, n: nat, p: int, q: int)
    requires
        is_order(order, keys, n),
        0 <= p < q < n,
    ensures
        order.len() == n,
        keys[order[p] as int] <= keys[order[q] as int],
        keys[order[p] as int] == keys[order[q] as int] ==> order[p] < order[q],
        order[p] != order[q],
{
    assert(comes_before(keys, order[p], order[q]));
}

/// A time is written with its whole seconds, a point and nine digits, which read
/// back as the seconds and the nanoseconds. A time before the origin has a minus
/// sign in front.
pub proof fn lemma_seconds_can_be_read_back(ns: nat)
    ensures
        ({
            let whole = decimal(ns / 1_000_000_000);
            let text = seconds(ns as int);
            let fraction = text.skip(whole.len() as int + 1);
            &&& text.take(whole.len() as int) == whole
            &&& text[whole.len() as int] == '.'
            &&& fraction.len() == 9
            &&& all_digits(fraction)
            &&& digits_value(fraction) == ns % 1_000_000_000
        }),
        ns > 0 ==> seconds(-(ns as int)) == seq!['-'] + seconds(ns as int),
{
    reveal_strlit(".");
    reveal_strlit("-");
    let whole = decimal(ns / 1_000_000_000);
    let text = seconds(ns as int);
    let rest = ns % 1_000_000_000;
    let digits = decimal(NANOS as nat + rest);
    lemma_decimal_len(NANOS as nat + rest);
    lemma_decimal_is_read_back(NANOS as nat + rest, NANOS as nat + rest);
    lemma_decimal_digits(NANOS as nat + rest);
    let fraction = text.skip(whole.len() as int + 1);
    assert(fraction =~= digits.skip(1));
    assert(text.take(whole.len() as int) =~= whole);
    assert(all_digits(digits));
    assert forall|i: int| 0 <= i < fraction.len() implies is_digit(#[trigger] fraction[i]) by {
        assert(is_digit(digits[i + 1]));
    }
    assert(digits_value(digits) == NANOS + rest);
    lemma_top_digit(digits);
    assert(digits_value(digits.skip(1)) < NANOS) by {
        lemma_nine_digits_are_small(digits.skip(1));
    }
    assert(digit_of(digits[0]) * NANOS + digits_value(digits.skip(1)) == NANOS + rest);
    assert(is_digit(digits[0]));
    if ns > 0 {
        assert("-"@ =~= seq!['-']);
    }
}

proof fn lemma_top_digit(s: Seq<char>)
    requires
        s.len() == 10,
    ensures
        digits_value(s) == digit_of(s[0]) * NANOS + digits_value(s.skip(1)),
{
    lemma_top_digit_of(s, 10);
}

spec fn ten_to(k: nat) -> nat
    decreases k,
{
    if k == 0 {
        1
    } else {
        10 * ten_to((k - 1) as nat)
    }
}

proof fn lemma_top_digit_of(s: Seq<char>, n: nat)
    requires
        s.len() == n,
        n > 0,
    ensures
        digits_value(s) == digit_of(s[0]) * ten_to((n - 1) as nat) + digits_value(s.skip(1)),
        ten_to(9) == NANOS,
    decreases n,
{
    reveal_with_fuel(ten_to, 10);
    if n == 1 {
        assert(s.drop_last() =~= Seq::empty());
        assert(s.skip(1) =~= Seq::empty());
        assert(digits_value(Seq::<char>::empty()) == 0);
        assert(digits_value(s) == digit_of(s.last()));
        assert(ten_to(0) == 1);
    } else {
        let front = s.drop_last();
        lemma_top_digit_of(front, (n - 1) as nat);
        assert(front.skip(1) =~= s.skip(1).drop_last());
        assert(s.skip(1).last() == s.last());
        assert(front[0] == s[0]);
        assert(digits_value(s) == digits_value(front) * 10 + digit_of(s.last()));
        let d = digit_of(s[0]);
        let p = ten_to((n - 2) as nat);
        assert(ten_to((n - 1) as nat) == 10 * p);
        assert((d * p) * 10 == d * (10 * p)) by (nonlinear_arith);
    }
}

proof fn lemma_nine_digits_are_small(s: Seq<char>)
    requires
        s.len() == 9,
        all_digits(s),
    ensures
        digits_value(s) < NANOS,
{
    lemma_digits_are_small(s, 9);
    reveal_with_fuel(ten_to, 10);
}

proof fn lemma_digits_are_small(s: Seq<char>, n: nat)
    requires
        s.len() == n,
        all_digits(s),
    ensures
        digits_value(s) < ten_to(n),
    decreases n,
{
    if n > 0 {
        assert forall|i: int| 0 <= i < n - 1 implies is_digit(#[trigger] s.drop_last()[i]) by {
            assert(is_digit(s[i]));
        }
        lemma_digits_are_small(s.drop_last(), (n - 1) as nat);
        assert(is_digit(s[n - 1]));
    }
}

/// A trajectory has a line for each pose, in their order: the time, and each
/// field behind a blank.
pub proof fn lemma_trajectory_has_a_line_per_pose(poses: Seq<TumPose>, next: TumPose, fields: Seq<String>, field: String)
    ensures
        trajectory(Seq::empty()) == Seq::<char>::empty(),
        trajectory(poses.push(next)) == trajectory(poses) + seconds(next.frame_id as int) + spaced(next.fields@)
            + seq!['\n'],
        spaced(Seq::empty()) == Seq::<char>::empty(),
        spaced(fields.push(field)) == spaced(fields) + seq![' '] + field@,
{
    reveal_strlit("\n");
    reveal_strlit(" ");
    assert(poses.push(next).drop_last() =~= poses);
    assert(fields.push(field).drop_last() =~= fields);
    assert("\n"@ =~= seq!['\n']);
    assert(" "@ =~= seq![' ']);
}

} // verus!
