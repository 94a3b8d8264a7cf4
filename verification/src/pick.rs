//! The choice of the receiver that `render` connects to: by exact id, else
//! by a part of its name, ignoring case.
use vstd::prelude::*;
use vstd::string::*;

use crate::devices::{devices_view, Device, DeviceView};
use crate::text::{
    contains_str, debug_quote, debug_str, decimal, decimal_string, lowercase, occurs_in, str_eq,
    to_lowercase,
};

verus! {

/// Positions of the receivers whose id is exactly `want`, in order.
pub open spec fn id_hits(ds: Seq<DeviceView>, want: Seq<char>) -> Seq<int>
    decreases ds.len(),
{
    if ds.len() == 0 {
        Seq::empty()
    } else if ds.last().id == want {
        id_hits(ds.drop_last(), want).push(ds.len() - 1)
    } else {
        id_hits(ds.drop_last(), want)
    }
}

/// The receivers' names, lowercased.
pub open spec fn lowered_names(ds: Seq<DeviceView>) -> Seq<Seq<char>> {
    ds.map_values(|d: DeviceView| lowercase(d.name))
}

/// Positions of the (lowercased) names that contain `lwant`, in order.
pub open spec fn name_hits(lnames: Seq<Seq<char>>, lwant: Seq<char>) -> Seq<int>
    decreases lnames.len(),
{
    if lnames.len() == 0 {
        Seq::empty()
    } else if occurs_in(lnames.last(), lwant) {
        name_hits(lnames.drop_last(), lwant).push(lnames.len() - 1)
    } else {
        name_hits(lnames.drop_last(), lwant)
    }
}

/// The names of the receivers at positions `hits`, in that order.
pub open spec fn names_at(ds: Seq<DeviceView>, hits: Seq<int>) -> Seq<Seq<char>> {
    hits.map_values(|k: int| ds[k].name)
}

/// Names joined by `, `.
pub open spec fn join_names(names: Seq<Seq<char>>) -> Seq<char>
    decreases names.len(),
{
    if names.len() == 0 {
        Seq::empty()
    } else if names.len() == 1 {
        names[0]
    } else {
        join_names(names.drop_last()) + ", "@ + names.last()
    }
}

/// The error when no receiver matches; `quoted` is the request as quoted.
pub open spec fn no_match_msg(quoted: Seq<char>) -> Seq<char> {
    "no AirPlay device matching "@ + quoted + " (try `airplayrelay list`)"@
}

/// The error when several receivers, named `names`, match.
pub open spec fn ambiguous_msg(quoted: Seq<char>, names: Seq<Seq<char>>) -> Seq<char> {
    quoted + " matches "@ + decimal(names.len()) + " devices ("@ + join_names(names)
        + "); be more specific"@
}

/// The choice among `ds` for the request `want`, given the lowercased names
/// `lnames`, the lowercased request `lwant` and the quoted request `quoted`:
/// the first receiver whose id is exactly `want`; else the only one whose
/// lowercased name contains `lwant`; an error when none or several do.
pub open spec fn choose_spec(
    ds: Seq<DeviceView>,
    want: Seq<char>,
    lnames: Seq<Seq<char>>,
    lwant: Seq<char>,
    quoted: Seq<char>,
) -> Result<int, Seq<char>> {
    let ids = id_hits(ds, want);
    let names = name_hits(lnames, lwant);
    if ids.len() > 0 {
        Ok(ids[0])
    } else if names.len() == 0 {
        Err(no_match_msg(quoted))
    } else if names.len() == 1 {
        Ok(names[0])
    } else {
        Err(ambiguous_msg(quoted, names_at(ds, names)))
    }
}

/// Which receiver `render` connects to for the request `want`: names are
/// compared lowercased, and the request is quoted as `{:?}` quotes it.
pub open spec fn pick_spec(ds: Seq<DeviceView>, want: Seq<char>) -> Result<int, Seq<char>> {
    choose_spec(ds, want, lowered_names(ds), lowercase(want), debug_str(want))
}

/// A choice of a position, or a message, as plain values.
pub open spec fn pick_view(r: Result<usize, String>) -> Result<int, Seq<char>> {
    match r {
        Ok(i) => Ok(i as int),
        Err(e) => Err(e@),
    }
}

proof fn lemma_hits_bounded(ds: Seq<DeviceView>, want: Seq<char>, lnames: Seq<Seq<char>>, lwant: Seq<char>)
    ensures
        forall|k: int|
            0 <= k < id_hits(ds, want).len() ==> 0 <= #[trigger] id_hits(ds, want)[k] < ds.len(),
        forall|k: int|
            0 <= k < name_hits(lnames, lwant).len() ==> 0 <= #[trigger] name_hits(lnames, lwant)[k]
                < lnames.len(),
        id_hits(ds, want).len() <= ds.len(),
        name_hits(lnames, lwant).len() <= lnames.len(),
    decreases ds.len() + lnames.len(),
{
    if ds.len() > 0 {
        lemma_hits_bounded(ds.drop_last(), want, lnames, lwant);
    }
    if lnames.len() > 0 {
        lemma_hits_bounded(ds, want, lnames.drop_last(), lwant);
    }
}

/// With no id hit among the first `i` receivers and a hit at `i`, the first
/// hit of the whole list is `i`.
proof fn lemma_first_hit(ds: Seq<DeviceView>, want: Seq<char>, i: int)
    requires
        0 <= i < ds.len(),
        id_hits(ds.take(i), want).len() == 0,
        ds[i].id == want,
    ensures
        id_hits(ds, want).len() > 0,
        id_hits(ds, want)[0] == i,
{
    lemma_hits_prefix(ds, want, i + 1);
    let big = ds.take(i + 1);
    assert(big.drop_last() =~= ds.take(i));
    assert(big.last().id == want);
    assert(id_hits(big, want) == id_hits(ds.take(i), want).push(i));
    assert(id_hits(big, want)[0] == i);
}

/// The hits of a prefix are a prefix of the hits.
proof fn lemma_hits_prefix(ds: Seq<DeviceView>, want: Seq<char>, k: int)
    requires
        0 <= k <= ds.len(),
    ensures
        id_hits(ds.take(k), want).len() <= id_hits(ds, want).len(),
        forall|m: int|
            0 <= m < id_hits(ds.take(k), want).len() ==> #[trigger] id_hits(ds.take(k), want)[m]
                == id_hits(ds, want)[m],
    decreases ds.len() - k,
{
    if k < ds.len() {
        lemma_hits_prefix(ds, want, k + 1);
        let small = ds.take(k);
        let big = ds.take(k + 1);
        assert(big.drop_last() =~= small);
        let hs = id_hits(small, want);
        let hb = id_hits(big, want);
        if big.last().id == want {
            assert(hb == hs.push(k));
        } else {
            assert(hb == hs);
        }
        assert forall|m: int| 0 <= m < hs.len() implies #[trigger] hs[m] == id_hits(ds, want)[m] by {
            assert(hb[m] == hs[m]);
        }
    } else {
        assert(ds.take(k) =~= ds);
    }
}

/// Chooses among `devices` for the request `want`, given each receiver's
/// name lowercased (`lowered`, in the same order), the request lowercased
/// and the request quoted for messages.
pub fn choose_device(
    devices: &Vec<Device>,
    want: &str,
    lowered: &Vec<String>,
    lowered_want: &str,
    quoted_want: &str,
) -> (r: Result<usize, String>)
    requires
        lowered@.len() == devices@.len(),
    ensures
        pick_view(r) == choose_spec(
            devices_view(devices@),
            want@,
            lowered.deep_view(),
            lowered_want@,
            quoted_want@,
        ),
{
    let ghost dv = devices_view(devices@);
    let ghost ln = lowered.deep_view();
    let n = devices.len();
    // The first exact id match, if any.
    let mut i: usize = 0;
    while i < n
        invariant
            n == devices@.len(),
            dv == devices_view(devices@),
            i <= n,
            id_hits(dv.take(i as int), want@).len() == 0,
        decreases n - i,
    {
        assert(dv.take(i + 1).drop_last() =~= dv.take(i as int));
        if str_eq(devices[i].id.as_str(), want) {
            proof {
                lemma_first_hit(dv, want@, i as int);
            }
            return Ok(i);
        }
        i = i + 1;
    }
    assert(dv.take(n as int) =~= dv);
    // All name matches, in order.
    let mut hits: Vec<usize> = Vec::new();
    let mut names = String::new();
    let mut j: usize = 0;
    while j < n
        invariant
            n == devices@.len(),
            n == lowered@.len(),
            dv == devices_view(devices@),
            ln == lowered.deep_view(),
            j <= n,
            hits@.len() == name_hits(ln.take(j as int), lowered_want@).len(),
            forall|k: int|
                0 <= k < hits@.len() ==> hits@[k] as int == #[trigger] name_hits(
                    ln.take(j as int),
                    lowered_want@,
                )[k],
            names@ == join_names(names_at(dv, name_hits(ln.take(j as int), lowered_want@))),
        decreases n - j,
    {
        let ghost before = name_hits(ln.take(j as int), lowered_want@);
        assert(ln.take(j + 1).drop_last() =~= ln.take(j as int));
        assert(ln.take(j + 1).last() == lowered@[j as int]@);
        if contains_str(lowered[j].as_str(), lowered_want) {
            if hits.len() > 0 {
                names.append(", ");
            }
            names.append(devices[j].name.as_str());
            hits.push(j);
            let ghost after = name_hits(ln.take(j + 1), lowered_want@);
            assert(after == before.push(j as int));
            let ghost na = names_at(dv, after);
            assert(na.drop_last() =~= names_at(dv, before));
            assert(na.last() == devices@[j as int].name@);
        }
        j = j + 1;
    }
    assert(ln.take(n as int) =~= ln);
    proof {
        lemma_hits_bounded(dv, want@, ln, lowered_want@);
    }
    if hits.len() == 0 {
        let mut e = String::from_str("no AirPlay device matching ");
        e.append(quoted_want);
        e.append(" (try `airplayrelay list`)");
        Err(e)
    } else if hits.len() == 1 {
        Ok(hits[0])
    } else {
        let mut e = String::from_str(quoted_want);
        e.append(" matches ");
        let count = decimal_string(hits.len() as u64);
        e.append(count.as_str());
        e.append(" devices (");
        e.append(names.as_str());
        e.append("); be more specific");
        Err(e)
    }
}

/// Matches a discovered receiver by exact id, else by case-insensitive name
/// substring; gives its position in `devices`.
pub fn pick_device(devices: &Vec<Device>, want: &str) -> (r: Result<usize, String>)
    ensures
        pick_view(r) == pick_spec(devices_view(devices@), want@),
{
    let ghost dv = devices_view(devices@);
    let n = devices.len();
    let mut lowered: Vec<String> = Vec::new();
    let mut i: usize = 0;
    while i < n
        invariant
            n == devices@.len(),
            dv == devices_view(devices@),
            i <= n,
            lowered.deep_view() =~= lowered_names(dv).take(i as int),
        decreases n - i,
    {
        let l = to_lowercase(devices[i].name.as_str());
        let ghost prev = lowered.deep_view();
        lowered.push(l);
        assert(lowered.deep_view() =~= prev.push(lowercase(dv[i as int].name)));
        i = i + 1;
    }
    assert(lowered_names(dv).take(n as int) =~= lowered_names(dv));
    let lowered_want = to_lowercase(want);
    let quoted_want = debug_quote(want);
    choose_device(devices, want, &lowered, lowered_want.as_str(), quoted_want.as_str())
}

/// A receiver whose id is exactly what was asked for is always chosen over
/// name matches: the choice is the first receiver with that id.
pub proof fn lemma_exact_id_wins(ds: Seq<DeviceView>, want: Seq<char>, k: int)
    requires
        0 <= k < ds.len(),
        ds[k].id == want,
    ensures
        pick_spec(ds, want) matches Ok(i) && 0 <= i <= k && ds[i].id == want && forall|j: int|
            0 <= j < i ==> ds[j].id != want,
{
    lemma_id_hits_exact(ds, want);
    let h = id_hits(ds, want);
    let m = choose|m: int| 0 <= m < h.len() && h[m] == k;
    assert(h[0] <= h[m]);
    assert forall|j: int| 0 <= j < h[0] implies ds[j].id != want by {
        if ds[j].id == want {
            let m2 = choose|m2: int| 0 <= m2 < h.len() && h[m2] == j;
            assert(h[0] <= h[m2]);
        }
    }
}

/// The id hits are, in increasing order, exactly the positions of the
/// receivers with that id.
proof fn lemma_id_hits_exact(ds: Seq<DeviceView>, want: Seq<char>)
    ensures
        forall|m: int|
            0 <= m < id_hits(ds, want).len() ==> 0 <= #[trigger] id_hits(ds, want)[m] < ds.len()
                && ds[id_hits(ds, want)[m]].id == want,
        forall|m1: int, m2: int|
            0 <= m1 < m2 < id_hits(ds, want).len() ==> #[trigger] id_hits(ds, want)[m1]
                < #[trigger] id_hits(ds, want)[m2],
        forall|j: int|
            0 <= j < ds.len() && #[trigger] ds[j].id == want ==> exists|m: int|
                0 <= m < id_hits(ds, want).len() && id_hits(ds, want)[m] == j,
    decreases ds.len(),
{
    if ds.len() > 0 {
        let pre = ds.drop_last();
        lemma_id_hits_exact(pre, want);
        let hp = id_hits(pre, want);
        let h = id_hits(ds, want);
        assert forall|m: int| 0 <= m < hp.len() implies ds[#[trigger] hp[m]] == pre[hp[m]] by {}
        assert forall|j: int| 0 <= j < ds.len() && #[trigger] ds[j].id == want implies exists|m: int|
            0 <= m < h.len() && h[m] == j by {
            if j < ds.len() - 1 {
                assert(pre[j] == ds[j]);
                let m = choose|m: int| 0 <= m < hp.len() && hp[m] == j;
                assert(h[m] == hp[m]);
            } else {
                assert(h[h.len() - 1] == j);
            }
        }
    }
}

proof fn lemma_hits_sound(ds: Seq<DeviceView>, want: Seq<char>, lnames: Seq<Seq<char>>, lwant: Seq<char>)
    ensures
        forall|k: int|
            0 <= k < id_hits(ds, want).len() ==> ds[#[trigger] id_hits(ds, want)[k]].id == want,
        forall|k: int|
            0 <= k < name_hits(lnames, lwant).len() ==> occurs_in(
                lnames[#[trigger] name_hits(lnames, lwant)[k]],
                lwant,
            ),
    decreases ds.len() + lnames.len(),
{
    lemma_id_hits_exact(ds, want);
    if lnames.len() > 0 {
        let pre = lnames.drop_last();
        lemma_hits_sound(ds, want, pre, lwant);
        lemma_hits_bounded(ds, want, pre, lwant);
        let b = name_hits(pre, lwant);
        assert forall|k: int| 0 <= k < b.len() implies lnames[#[trigger] b[k]] == pre[b[k]] by {}
    }
}

/// What is chosen is a receiver with exactly that id, or else the one and
/// only receiver whose lowercased name contains the lowercased request.
pub proof fn lemma_pick_sound(ds: Seq<DeviceView>, want: Seq<char>)
    ensures
        pick_spec(ds, want) matches Ok(i) ==> 0 <= i < ds.len() && (ds[i].id == want || (
        id_hits(ds, want).len() == 0 && name_hits(lowered_names(ds), lowercase(want)) == seq![i]
            && occurs_in(lowercase(ds[i].name), lowercase(want)))),
{
    let ln = lowered_names(ds);
    lemma_hits_bounded(ds, want, ln, lowercase(want));
    lemma_hits_sound(ds, want, ln, lowercase(want));
    let names = name_hits(ln, lowercase(want));
    if id_hits(ds, want).len() == 0 && names.len() == 1 {
        assert(names =~= seq![names[0]]);
        assert(ln[names[0]] == lowercase(ds[names[0]].name));
    }
}

/// Names are matched ignoring case: two requests that lowercase alike, and
/// that are no receiver's exact id, choose the same receiver.
pub proof fn lemma_pick_ignores_case(ds: Seq<DeviceView>, w1: Seq<char>, w2: Seq<char>)
    requires
        lowercase(w1) == lowercase(w2),
        id_hits(ds, w1).len() == 0,
        id_hits(ds, w2).len() == 0,
    ensures
        pick_spec(ds, w1) is Ok <==> pick_spec(ds, w2) is Ok,
        pick_spec(ds, w1) is Ok ==> pick_spec(ds, w1) == pick_spec(ds, w2),
{
}

/// The name hits are, in increasing order, exactly the positions of the
/// names that contain `lwant`.
proof fn lemma_name_hits_exact(l: Seq<Seq<char>>, lwant: Seq<char>)
    ensures
        forall|m: int|
            0 <= m < name_hits(l, lwant).len() ==> 0 <= #[trigger] name_hits(l, lwant)[m] < l.len()
                && occurs_in(l[name_hits(l, lwant)[m]], lwant),
        forall|m1: int, m2: int|
            0 <= m1 < m2 < name_hits(l, lwant).len() ==> #[trigger] name_hits(l, lwant)[m1]
                < #[trigger] name_hits(l, lwant)[m2],
        forall|j: int|
            0 <= j < l.len() && occurs_in(#[trigger] l[j], lwant) ==> exists|m: int|
                0 <= m < name_hits(l, lwant).len() && name_hits(l, lwant)[m] == j,
    decreases l.len(),
{
    if l.len() > 0 {
        let pre = l.drop_last();
        lemma_name_hits_exact(pre, lwant);
        let hp = name_hits(pre, lwant);
        let h = name_hits(l, lwant);
        assert forall|m: int| 0 <= m < hp.len() implies l[#[trigger] hp[m]] == pre[hp[m]] by {}
        assert forall|j: int| 0 <= j < l.len() && occurs_in(#[trigger] l[j], lwant) implies exists|
            m: int,
        | 0 <= m < h.len() && h[m] == j by {
            if j < l.len() - 1 {
                assert(pre[j] == l[j]);
                let m = choose|m: int| 0 <= m < hp.len() && hp[m] == j;
                assert(h[m] == hp[m]);
            } else {
                assert(h[h.len() - 1] == j);
            }
        }
    }
}

/// Whether `want` is the id of the receiver at `k`.
pub open spec fn id_is(ds: Seq<DeviceView>, want: Seq<char>, k: int) -> bool {
    ds[k].id == want
}

/// Whether the name of the receiver at `k` contains `want`, ignoring case.
pub open spec fn name_has(ds: Seq<DeviceView>, want: Seq<char>, k: int) -> bool {
    occurs_in(lowercase(ds[k].name), lowercase(want))
}

/// What the hits say, in terms of the receivers alone: no id hit means no
/// receiver has that id, else the first hit has it; no name hit means no
/// name matches; one means it is the only name that matches; more means two
/// different names match.
proof fn lemma_hit_counts(ds: Seq<DeviceView>, want: Seq<char>)
    ensures
        ({
            let ids = id_hits(ds, want);
            let names = name_hits(lowered_names(ds), lowercase(want));
            &&& ids.len() == 0 <==> (forall|k: int| 0 <= k < ds.len() ==> !#[trigger] id_is(ds, want, k))
            &&& ids.len() > 0 ==> 0 <= ids[0] < ds.len() && id_is(ds, want, ids[0])
            &&& names.len() == 0 <==> (forall|k: int| 0 <= k < ds.len() ==> !#[trigger] name_has(ds, want, k))
            &&& names.len() == 1 ==> 0 <= names[0] < ds.len() && name_has(ds, want, names[0]) && (
            forall|k: int| 0 <= k < ds.len() && #[trigger] name_has(ds, want, k) ==> k == names[0])
            &&& names.len() >= 2 ==> 0 <= names[0] < ds.len() && 0 <= names[1] < ds.len()
                && names[0] != names[1] && name_has(ds, want, names[0]) && name_has(ds, want, names[1])
        }),
{
    let ids = id_hits(ds, want);
    let l = lowered_names(ds);
    let lw = lowercase(want);
    let names = name_hits(l, lw);
    lemma_id_hits_exact(ds, want);
    lemma_name_hits_exact(l, lw);
    assert forall|k: int| 0 <= k < ds.len() implies l[k] == lowercase(ds[k].name) by {}
    if ids.len() == 0 {
        assert forall|k: int| 0 <= k < ds.len() implies !#[trigger] id_is(ds, want, k) by {
            if ds[k].id == want {
                let m = choose|m: int| 0 <= m < ids.len() && ids[m] == k;
            }
        }
    }
    if ids.len() > 0 {
        assert(id_is(ds, want, ids[0]));
    }
    if names.len() == 0 {
        assert forall|k: int| 0 <= k < ds.len() implies !#[trigger] name_has(ds, want, k) by {
            if occurs_in(l[k], lw) {
                let m = choose|m: int| 0 <= m < names.len() && names[m] == k;
            }
        }
    } else {
        assert(name_has(ds, want, names[0]));
    }
    if names.len() == 1 {
        assert forall|k: int| 0 <= k < ds.len() && #[trigger] name_has(ds, want, k) implies k
            == names[0] by {
            assert(occurs_in(l[k], lw));
            let m = choose|m: int| 0 <= m < names.len() && names[m] == k;
        }
    }
    if names.len() >= 2 {
        assert(names[0] < names[1]);
        assert(name_has(ds, want, names[1]));
    }
}

/// `b` lists the items of `a` in some order: `b[m]` is `a[sigma[m]]`, no
/// position of `a` is used twice, and both have the same length.
pub open spec fn reorders(a: Seq<Seq<char>>, b: Seq<Seq<char>>, sigma: Seq<int>) -> bool {
    &&& a.len() == b.len()
    &&& sigma.len() == b.len()
    &&& forall|m: int| 0 <= m < b.len() ==> 0 <= #[trigger] sigma[m] < a.len() && b[m] == a[sigma[m]]
    &&& forall|m1: int, m2: int|
        0 <= m1 < b.len() && 0 <= m2 < b.len() && m1 != m2 ==> #[trigger] sigma[m1] != #[trigger] sigma[m2]
}

/// The names of the receivers whose name contains the request, ignoring
/// case, in order.
pub open spec fn matched_names(ds: Seq<DeviceView>, want: Seq<char>) -> Seq<Seq<char>> {
    names_at(ds, name_hits(lowered_names(ds), lowercase(want)))
}

proof fn lemma_matched_names_reorder(
    ds: Seq<DeviceView>,
    p: Seq<DeviceView>,
    perm: Seq<int>,
    want: Seq<char>,
) -> (sigma: Seq<int>)
    requires
        perm.len() == ds.len(),
        p.len() == ds.len(),
        forall|k: int| 0 <= k < perm.len() ==> 0 <= #[trigger] perm[k] < ds.len() && p[k] == ds[perm[k]],
        forall|a: int, b: int|
            0 <= a < perm.len() && 0 <= b < perm.len() && a != b ==> #[trigger] perm[a] != #[trigger] perm[b],
        forall|j: int| 0 <= j < ds.len() ==> #[trigger] perm.contains(j),
    ensures
        reorders(matched_names(ds, want), matched_names(p, want), sigma),
{
    let ld = lowered_names(ds);
    let lp = lowered_names(p);
    let lw = lowercase(want);
    lemma_name_hits_exact(ld, lw);
    lemma_name_hits_exact(lp, lw);
    let nd = name_hits(ld, lw);
    let np = name_hits(lp, lw);
    assert forall|k: int| 0 <= k < ds.len() implies #[trigger] lp[k] == ld[perm[k]] by {}
    let sigma = Seq::new(
        np.len(),
        |m: int| choose|m2: int| 0 <= m2 < nd.len() && nd[m2] == perm[np[m]],
    );
    let md = matched_names(ds, want);
    let mp = matched_names(p, want);
    assert forall|m: int| 0 <= m < np.len() implies 0 <= #[trigger] sigma[m] < nd.len() && nd[sigma[m]]
        == perm[np[m]] by {
        let k = np[m];
        assert(lp[k] == ld[perm[k]]);
        assert(occurs_in(ld[perm[k]], lw));
        assert(exists|m2: int| 0 <= m2 < nd.len() && nd[m2] == perm[np[m]]);
    }
    assert forall|m1: int, m2: int|
        0 <= m1 < np.len() && 0 <= m2 < np.len() && m1 != m2 implies #[trigger] sigma[m1]
        != #[trigger] sigma[m2] by {
        if m1 < m2 {
            assert(np[m1] < np[m2]);
        } else {
            assert(np[m2] < np[m1]);
        }
    }
    // Both lists of hits have the same size: `perm` maps one onto the other.
    let x = np.to_set();
    let y = nd.to_set();
    let f = |k: int| perm[k];
    assert(x.map(f) =~= y) by {
        assert forall|v: int| x.map(f).contains(v) implies y.contains(v) by {
            let k = choose|k: int| x.contains(k) && v == f(k);
            let m = choose|m: int| 0 <= m < np.len() && np[m] == k;
            assert(nd[sigma[m]] == v);
        }
        assert forall|v: int| y.contains(v) implies x.map(f).contains(v) by {
            let m2 = choose|m2: int| 0 <= m2 < nd.len() && nd[m2] == v;
            assert(perm.contains(v));
            let k = choose|k: int| 0 <= k < perm.len() && perm[k] == v;
            assert(lp[k] == ld[perm[k]]);
            assert(occurs_in(lp[k], lw));
            let m = choose|m: int| 0 <= m < np.len() && np[m] == k;
            assert(x.contains(k));
        }
    }
    assert(vstd::relations::injective_on(f, x)) by {
        assert forall|k1: int, k2: int|
            x.contains(k1) && x.contains(k2) && #[trigger] f(k1) == #[trigger] f(k2) implies k1 == k2 by {
            let m1 = choose|m: int| 0 <= m < np.len() && np[m] == k1;
            let m2 = choose|m: int| 0 <= m < np.len() && np[m] == k2;
        }
    }
    assert(np.no_duplicates()) by {
        assert forall|i: int, j: int| 0 <= i < np.len() && 0 <= j < np.len() && i != j implies np[i]
            != np[j] by {
            if i < j {
                assert(np[i] < np[j]);
            } else {
                assert(np[j] < np[i]);
            }
        }
    }
    assert(nd.no_duplicates()) by {
        assert forall|i: int, j: int| 0 <= i < nd.len() && 0 <= j < nd.len() && i != j implies nd[i]
            != nd[j] by {
            if i < j {
                assert(nd[i] < nd[j]);
            } else {
                assert(nd[j] < nd[i]);
            }
        }
    }
    np.unique_seq_to_set();
    nd.unique_seq_to_set();
    vstd::seq_lib::seq_to_set_is_finite(np);
    vstd::set_lib::lemma_map_size(x, y, f);
    assert forall|m: int| 0 <= m < mp.len() implies mp[m] == md[#[trigger] sigma[m]] by {
        assert(p[np[m]] == ds[perm[np[m]]]);
    }
    sigma
}

/// The order in which receivers with distinct ids were discovered does not
/// change the choice: for `p` a reordering of `ds` (`p[k]` is `ds[perm[k]]`,
/// `perm` a bijection), the choice succeeds for both or for neither and
/// picks the same receiver; when it fails, the two messages are the same, or
/// both list the matching names, the same names in an order that may
/// differ (`sigma` gives it).
pub proof fn lemma_pick_ignores_order(
    ds: Seq<DeviceView>,
    p: Seq<DeviceView>,
    perm: Seq<int>,
    want: Seq<char>,
) -> (sigma: Seq<int>)
    requires
        perm.len() == ds.len(),
        p.len() == ds.len(),
        forall|k: int| 0 <= k < perm.len() ==> 0 <= #[trigger] perm[k] < ds.len() && p[k] == ds[perm[k]],
        forall|a: int, b: int|
            0 <= a < perm.len() && 0 <= b < perm.len() && a != b ==> #[trigger] perm[a] != #[trigger] perm[b],
        forall|j: int| 0 <= j < ds.len() ==> #[trigger] perm.contains(j),
        forall|a: int, b: int|
            0 <= a < ds.len() && 0 <= b < ds.len() && a != b ==> #[trigger] ds[a].id != #[trigger] ds[b].id,
    ensures
        pick_spec(p, want) is Ok <==> pick_spec(ds, want) is Ok,
        pick_spec(p, want) matches Ok(i) ==> pick_spec(ds, want) matches Ok(j) && p[i] == ds[j],
        reorders(matched_names(ds, want), matched_names(p, want), sigma),
        pick_spec(ds, want) matches Err(ed) ==> pick_spec(p, want) matches Err(ep) && (ed == ep || (
        ed == ambiguous_msg(debug_str(want), matched_names(ds, want)) && ep == ambiguous_msg(
            debug_str(want),
            matched_names(p, want),
        ))),
{
    let sigma = lemma_matched_names_reorder(ds, p, perm, want);
    lemma_hit_counts(ds, want);
    lemma_hit_counts(p, want);
    let n = ds.len();
    let ids_d = id_hits(ds, want);
    let ids_p = id_hits(p, want);
    let nd = name_hits(lowered_names(ds), lowercase(want));
    let np = name_hits(lowered_names(p), lowercase(want));
    // Each property of p[k] is that of ds[perm[k]].
    assert forall|k: int| 0 <= k < n implies (#[trigger] id_is(p, want, k) == id_is(ds, want, perm[k])
        && name_has(p, want, k) == name_has(ds, want, perm[k])) by {}
    if ids_d.len() > 0 {
        let j = ids_d[0];
        assert(perm.contains(j));
        let k = choose|k: int| 0 <= k < perm.len() && #[trigger] perm[k] == j;
        assert(id_is(p, want, k));
        assert(ids_p.len() > 0);
        let i = ids_p[0];
        assert(id_is(ds, want, perm[i]));
        if perm[i] != j {
            assert(ds[perm[i]].id != ds[j].id);
        }
        assert(p[i] == ds[j]);
    } else {
        assert(ids_p.len() == 0) by {
            assert forall|k: int| 0 <= k < n implies !#[trigger] id_is(p, want, k) by {
                assert(!id_is(ds, want, perm[k]));
            }
        }
        if nd.len() == 0 {
            assert forall|k: int| 0 <= k < n implies !#[trigger] name_has(p, want, k) by {
                assert(!name_has(ds, want, perm[k]));
            }
            assert(np.len() == 0);
        } else if nd.len() == 1 {
            let j = nd[0];
            assert(perm.contains(j));
        let k = choose|k: int| 0 <= k < perm.len() && #[trigger] perm[k] == j;
            assert(name_has(p, want, k));
            assert(np.len() != 0);
            if np.len() >= 2 {
                let a = np[0];
                let b = np[1];
                assert(name_has(ds, want, perm[a]));
                assert(name_has(ds, want, perm[b]));
                assert(perm[a] != perm[b]);
            }
            assert(np.len() == 1);
            assert(name_has(p, want, np[0]));
            assert(name_has(ds, want, perm[np[0]]));
            assert(perm[np[0]] == j);
        } else {
            let a = nd[0];
            let b = nd[1];
            assert(perm.contains(a));
            assert(perm.contains(b));
            let ka = choose|k: int| 0 <= k < perm.len() && #[trigger] perm[k] == a;
            let kb = choose|k: int| 0 <= k < perm.len() && #[trigger] perm[k] == b;
            assert(name_has(p, want, ka));
            assert(name_has(p, want, kb));
            assert(np.len() != 0);
            if np.len() == 1 {
                assert(ka == np[0]);
                assert(kb == np[0]);
            }
        }
    }
    sigma
}

/// No receiver with that id, and no name that contains the request: the
/// choice fails with the "no AirPlay device matching" message around the
/// quoted request.
pub proof fn lemma_choose_no_match(
    ds: Seq<DeviceView>,
    want: Seq<char>,
    lnames: Seq<Seq<char>>,
    lwant: Seq<char>,
    quoted: Seq<char>,
)
    requires
        lnames.len() == ds.len(),
        forall|k: int| 0 <= k < ds.len() ==> #[trigger] ds[k].id != want,
        forall|k: int| 0 <= k < lnames.len() ==> !occurs_in(#[trigger] lnames[k], lwant),
    ensures
        choose_spec(ds, want, lnames, lwant, quoted) == Err::<int, Seq<char>>(
            "no AirPlay device matching "@ + quoted + " (try `airplayrelay list`)"@,
        ),
{
    lemma_id_hits_exact(ds, want);
    lemma_name_hits_exact(lnames, lwant);
    let ids = id_hits(ds, want);
    let names = name_hits(lnames, lwant);
    if ids.len() > 0 {
        assert(ds[ids[0]].id == want);
    }
    if names.len() > 0 {
        assert(occurs_in(lnames[names[0]], lwant));
    }
}

/// No receiver with that id, and exactly one name, at `i`, that contains
/// the request: the choice is the receiver at `i`.
pub proof fn lemma_choose_only_name_match(
    ds: Seq<DeviceView>,
    want: Seq<char>,
    lnames: Seq<Seq<char>>,
    lwant: Seq<char>,
    quoted: Seq<char>,
    i: int,
)
    requires
        lnames.len() == ds.len(),
        0 <= i < ds.len(),
        forall|k: int| 0 <= k < ds.len() ==> #[trigger] ds[k].id != want,
        occurs_in(lnames[i], lwant),
        forall|k: int| 0 <= k < lnames.len() && occurs_in(#[trigger] lnames[k], lwant) ==> k == i,
    ensures
        choose_spec(ds, want, lnames, lwant, quoted) == Ok::<int, Seq<char>>(i),
{
    lemma_id_hits_exact(ds, want);
    lemma_name_hits_exact(lnames, lwant);
    let ids = id_hits(ds, want);
    let names = name_hits(lnames, lwant);
    if ids.len() > 0 {
        assert(ds[ids[0]].id == want);
    }
    let m = choose|m: int| 0 <= m < names.len() && names[m] == i;
    assert(occurs_in(lnames[names[0]], lwant));
    if names.len() > 1 {
        assert(occurs_in(lnames[names[1]], lwant));
        assert(names[0] < names[1]);
    }
}

/// No receiver with that id, and two different names, at `i` and `j`, that
/// contain the request: the choice fails, and the message gives the quoted
/// request, how many names match and those names, joined by `, ` in the
/// order the receivers were found. `h` lists, in that order, exactly the
/// positions whose names match.
pub proof fn lemma_choose_several_name_matches(
    ds: Seq<DeviceView>,
    want: Seq<char>,
    lnames: Seq<Seq<char>>,
    lwant: Seq<char>,
    quoted: Seq<char>,
    i: int,
    j: int,
) -> (h: Seq<int>)
    requires
        lnames.len() == ds.len(),
        0 <= i < ds.len(),
        0 <= j < ds.len(),
        i != j,
        forall|k: int| 0 <= k < ds.len() ==> #[trigger] ds[k].id != want,
        occurs_in(lnames[i], lwant),
        occurs_in(lnames[j], lwant),
    ensures
        forall|m: int| 0 <= m < h.len() ==> 0 <= #[trigger] h[m] < ds.len() && occurs_in(lnames[h[m]], lwant),
        forall|m1: int, m2: int| 0 <= m1 < m2 < h.len() ==> #[trigger] h[m1] < #[trigger] h[m2],
        forall|k: int| 0 <= k < ds.len() && occurs_in(#[trigger] lnames[k], lwant) ==> h.contains(k),
        h.len() >= 2,
        choose_spec(ds, want, lnames, lwant, quoted) == Err::<int, Seq<char>>(
            quoted + " matches "@ + decimal(h.len()) + " devices ("@ + join_names(
                h.map_values(|k: int| ds[k].name),
            ) + "); be more specific"@,
        ),
{
    lemma_id_hits_exact(ds, want);
    lemma_name_hits_exact(lnames, lwant);
    let ids = id_hits(ds, want);
    let names = name_hits(lnames, lwant);
    if ids.len() > 0 {
        assert(ds[ids[0]].id == want);
    }
    let mi = choose|m: int| 0 <= m < names.len() && names[m] == i;
    let mj = choose|m: int| 0 <= m < names.len() && names[m] == j;
    assert(names.len() >= 2);
    assert forall|k: int| 0 <= k < ds.len() && occurs_in(#[trigger] lnames[k], lwant) implies names.contains(k) by {
        let m = choose|m: int| 0 <= m < names.len() && names[m] == k;
    }
    assert(names_at(ds, names) =~= names.map_values(|k: int| ds[k].name));
    names
}

/// Joining names: one name is itself; one more name comes after a `, `.
pub proof fn lemma_join_names(names: Seq<Seq<char>>, x: Seq<char>)
    ensures
        join_names(seq![x]) == x,
        names.len() > 0 ==> join_names(names.push(x)) == join_names(names) + ", "@ + x,
        join_names(Seq::empty()) == Seq::<char>::empty(),
{
    assert(names.push(x).drop_last() =~= names);
}

/// For the receivers as found: with no receiver of that id and exactly one
/// receiver, at `i`, whose name contains the request ignoring case, that
/// receiver is chosen.
pub proof fn lemma_pick_only_name_match(ds: Seq<DeviceView>, want: Seq<char>, i: int)
    requires
        0 <= i < ds.len(),
        forall|k: int| 0 <= k < ds.len() ==> #[trigger] ds[k].id != want,
        occurs_in(lowercase(ds[i].name), lowercase(want)),
        forall|k: int|
            0 <= k < ds.len() && occurs_in(lowercase(#[trigger] ds[k].name), lowercase(want)) ==> k
                == i,
    ensures
        pick_spec(ds, want) == Ok::<int, Seq<char>>(i),
{
    let l = lowered_names(ds);
    assert forall|k: int| 0 <= k < l.len() && occurs_in(#[trigger] l[k], lowercase(want)) implies k
        == i by {
        assert(l[k] == lowercase(ds[k].name));
    }
    lemma_choose_only_name_match(ds, want, l, lowercase(want), debug_str(want), i);
}

/// For the receivers as found: with no receiver of that id and no name that
/// contains the request ignoring case, the choice fails with the "no AirPlay
/// device matching" message around the request as `{:?}` quotes it.
pub proof fn lemma_pick_no_match(ds: Seq<DeviceView>, want: Seq<char>)
    requires
        forall|k: int| 0 <= k < ds.len() ==> #[trigger] ds[k].id != want,
        forall|k: int|
            0 <= k < ds.len() ==> !occurs_in(lowercase(#[trigger] ds[k].name), lowercase(want)),
    ensures
        pick_spec(ds, want) == Err::<int, Seq<char>>(
            "no AirPlay device matching "@ + debug_str(want) + " (try `airplayrelay list`)"@,
        ),
{
    let l = lowered_names(ds);
    assert forall|k: int| 0 <= k < l.len() implies !occurs_in(#[trigger] l[k], lowercase(want)) by {
        assert(l[k] == lowercase(ds[k].name));
    }
    lemma_choose_no_match(ds, want, l, lowercase(want), debug_str(want));
}

} // verus!
