//! Presence discovery: the reply to a `check`.
//!
//! For each accepted contact the registry is asked for the contact's
//! devices; when the registry fails, the pod's own snapshot answers
//! instead. Malformed stored entries are skipped; a device id appears
//! at most once per contact; contacts with no devices are omitted.

use vstd::prelude::*;

use crate::codec::{
    DeviceInfo, DeviceView, UserDevicesResponse, device_of, user_devices_json, str_eq,
};
use crate::json::{Json, JsonValue, dec, jv};
use crate::router::{LocalRouter, presence_of, router_wf};

verus! {

broadcast use {vstd::string::group_string_axioms, vstd::seq::group_seq_axioms,
    vstd::std_specs::vec::group_vec_axioms};

/// What the registry returned for one contact.
pub enum ContactFetch {
    /// The stored descriptor texts, one per device key.
    Devices(Vec<String>),
    /// The registry could not be read; fall back to the local
    /// snapshot.
    RegistryFailed,
}

/// The mathematical content of a fetch.
pub enum FetchView {
    Devices(Seq<Seq<char>>),
    RegistryFailed,
}

impl View for ContactFetch {
    type V = FetchView;

    open spec fn view(&self) -> FetchView {
        match self {
            ContactFetch::Devices(ts) => FetchView::Devices(
                ts@.map(|i: int, t: String| t@),
            ),
            ContactFetch::RegistryFailed => FetchView::RegistryFailed,
        }
    }
}

/// Whether some device of `ds[..i]` carries this id.
pub open spec fn has_id_upto(ds: Seq<DeviceView>, id: Seq<char>, i: int) -> bool {
    exists|k: int| 0 <= k < i && (#[trigger] ds[k]).device_id == id
}

/// The descriptors decoded from the first `i` stored texts, malformed
/// ones skipped, later duplicates of a device id dropped.
pub open spec fn fetched_devices_upto(ts: Seq<Seq<char>>, i: int) -> Seq<DeviceView>
    decreases i,
    when 0 <= i <= ts.len()
{
    if i <= 0 {
        Seq::empty()
    } else {
        let prev = fetched_devices_upto(ts, i - 1);
        match dec(ts[i - 1]) {
            Some(j) => match device_of(j) {
                Some(d) => if has_id_upto(prev, d.device_id, prev.len() as int) {
                    prev
                } else {
                    prev.push(d)
                },
                None => prev,
            },
            None => prev,
        }
    }
}

/// The descriptors a fetch yields for one contact.
pub open spec fn fetched_devices(ts: Seq<Seq<char>>) -> Seq<DeviceView> {
    fetched_devices_upto(ts, ts.len() as int)
}

/// Device ids appear at most once among the fetched descriptors.
pub proof fn lemma_fetched_distinct(ts: Seq<Seq<char>>, i: int)
    requires
        0 <= i <= ts.len(),
    ensures
        forall|a: int, b: int|
            0 <= a < b < fetched_devices_upto(ts, i).len() ==> (#[trigger] fetched_devices_upto(
                ts,
                i,
            )[a]).device_id != (#[trigger] fetched_devices_upto(ts, i)[b]).device_id,
    decreases i,
{
    if i > 0 {
        lemma_fetched_distinct(ts, i - 1);
        let prev = fetched_devices_upto(ts, i - 1);
        let cur = fetched_devices_upto(ts, i);
        if cur != prev {
            assert forall|a: int, b: int|
                0 <= a < b < cur.len() implies (#[trigger] cur[a]).device_id != (
            #[trigger] cur[b]).device_id by {
                if b == cur.len() - 1 {
                    assert(cur[a] == prev[a]);
                    assert(!has_id_upto(prev, cur[b].device_id, prev.len() as int));
                } else {
                    assert(cur[a] == prev[a] && cur[b] == prev[b]);
                }
            }
        }
    }
}

/// Decodes one contact's stored descriptor texts: exactly the
/// decodable ones, first occurrence per device id, in order.
fn decode_devices(ts: &Vec<String>) -> (r: Vec<DeviceInfo>)
    ensures
        r@.map(|i: int, d: DeviceInfo| d@) == fetched_devices(ts@.map(|i: int, t: String| t@)),
{
    let ghost tss = ts@.map(|i: int, t: String| t@);
    let mut out: Vec<DeviceInfo> = Vec::new();
    let mut i: usize = 0;
    while i < ts.len()
        invariant
            0 <= i <= ts@.len(),
            tss == ts@.map(|k: int, t: String| t@),
            tss.len() == ts@.len(),
            forall|k: int| 0 <= k < ts@.len() ==> tss[k] == ts@[k]@,
            out@.map(|k: int, d: DeviceInfo| d@) == fetched_devices_upto(tss, i as int),
        decreases ts.len() - i,
    {
        let ghost prev = out@.map(|k: int, d: DeviceInfo| d@);
        match DeviceInfo::decode(ts[i].as_str()) {
            Some(d) => {
                let mut seen = false;
                let mut k: usize = 0;
                while k < out.len()
                    invariant
                        0 <= k <= out@.len(),
                        prev == out@.map(|m: int, x: DeviceInfo| x@),
                        prev.len() == out@.len(),
                        forall|m: int| 0 <= m < out@.len() ==> prev[m] == out@[m]@,
                        seen <==> has_id_upto(prev, d@.device_id, k as int),
                    decreases out.len() - k,
                {
                    if str_eq(out[k].device_id.as_str(), d.device_id.as_str()) {
                        seen = true;
                        proof {
                            assert(prev[k as int].device_id == d@.device_id);
                            assert(has_id_upto(prev, d@.device_id, k + 1 as int));
                        }
                    } else {
                        proof {
                            if has_id_upto(prev, d@.device_id, k + 1 as int) && !has_id_upto(
                                prev,
                                d@.device_id,
                                k as int,
                            ) {
                                assert(prev[k as int].device_id == d@.device_id);
                            }
                        }
                    }
                    k += 1;
                }
                if !seen {
                    out.push(d);
                    proof {
                        assert(out@.map(|m: int, x: DeviceInfo| x@) =~= prev.push(
                            out@.last()@,
                        ));
                    }
                } else {
                    proof {
                        assert(out@.map(|m: int, x: DeviceInfo| x@) =~= prev);
                    }
                }
            },
            None => {
                proof {
                    assert(out@.map(|m: int, x: DeviceInfo| x@) =~= prev);
                }
            },
        }
        i += 1;
    }
    proof {
        assert(out@.map(|k: int, d: DeviceInfo| d@) =~= fetched_devices_upto(
            tss,
            tss.len() as int,
        ));
    }
    out
}

/// Computes the `check` reply entries from each contact's fetch.
///
/// At most one entry per contact email (the contacts are required
/// distinct); within an entry each device id appears at most once;
/// contacts with no devices are omitted; entries keep the contacts'
/// order.
/// Whether some contact carries this email.
pub open spec fn contact_email_member(cs: Seq<(String, ContactFetch)>, e: Seq<char>) -> bool
    decreases cs.len(),
{
    if cs.len() == 0 {
        false
    } else {
        cs[0].0@ == e || contact_email_member(cs.drop_first(), e)
    }
}

/// Whether some contact with this email reported a registry failure.
pub open spec fn failed_contact(cs: Seq<(String, ContactFetch)>, e: Seq<char>) -> bool
    decreases cs.len(),
{
    if cs.len() == 0 {
        false
    } else {
        (cs[0].0@ == e && cs[0].1@ is RegistryFailed) || failed_contact(cs.drop_first(), e)
    }
}

/// Whether some reply entry carries this email.
pub open spec fn entry_email_member(rs: Seq<UserDevicesResponse>, e: Seq<char>) -> bool
    decreases rs.len(),
{
    if rs.len() == 0 {
        false
    } else {
        rs[0].email@ == e || entry_email_member(rs.drop_first(), e)
    }
}

/// Whether some reply entry carries this email with these devices.
pub open spec fn has_entry(
    rs: Seq<UserDevicesResponse>,
    e: Seq<char>,
    ds: Seq<DeviceView>,
) -> bool
    decreases rs.len(),
{
    if rs.len() == 0 {
        false
    } else {
        (rs[0].email@ == e && rs[0].devices@.map(|m: int, d: DeviceInfo| d@) == ds) || has_entry(
            rs.drop_first(),
            e,
            ds,
        )
    }
}

proof fn lemma_contact_email_at(cs: Seq<(String, ContactFetch)>, k: int)
    requires
        0 <= k < cs.len(),
    ensures
        contact_email_member(cs, cs[k].0@),
    decreases k,
{
    if k > 0 {
        lemma_contact_email_at(cs.drop_first(), k - 1);
        assert(cs.drop_first()[k - 1] == cs[k]);
    }
}

proof fn lemma_failed_contact_at(cs: Seq<(String, ContactFetch)>, k: int)
    requires
        0 <= k < cs.len(),
        cs[k].1@ is RegistryFailed,
    ensures
        failed_contact(cs, cs[k].0@),
    decreases k,
{
    if k > 0 {
        lemma_failed_contact_at(cs.drop_first(), k - 1);
        assert(cs.drop_first()[k - 1] == cs[k]);
    }
}

proof fn lemma_failed_contact_converse(cs: Seq<(String, ContactFetch)>, e: Seq<char>)
    requires
        failed_contact(cs, e),
    ensures
        exists|k: int|
            0 <= k < cs.len() && (#[trigger] cs[k]).0@ == e && cs[k].1@ is RegistryFailed,
    decreases cs.len(),
{
    if cs[0].0@ == e && cs[0].1@ is RegistryFailed {
        assert(cs[0].0@ == e && cs[0].1@ is RegistryFailed);
    } else {
        lemma_failed_contact_converse(cs.drop_first(), e);
        let k = choose|k: int|
            0 <= k < cs.drop_first().len() && (#[trigger] cs.drop_first()[k]).0@ == e
                && cs.drop_first()[k].1@ is RegistryFailed;
        assert(cs[k + 1] == cs.drop_first()[k]);
    }
}

proof fn lemma_has_entry_at(rs: Seq<UserDevicesResponse>, x: int, ds: Seq<DeviceView>)
    requires
        0 <= x < rs.len(),
        rs[x].devices@.map(|m: int, d: DeviceInfo| d@) == ds,
    ensures
        has_entry(rs, rs[x].email@, ds),
    decreases x,
{
    if x > 0 {
        lemma_has_entry_at(rs.drop_first(), x - 1, ds);
        assert(rs.drop_first()[x - 1] == rs[x]);
    }
}

proof fn lemma_no_entry(rs: Seq<UserDevicesResponse>, e: Seq<char>)
    requires
        forall|x: int| 0 <= x < rs.len() ==> (#[trigger] rs[x]).email@ != e,
    ensures
        !entry_email_member(rs, e),
    decreases rs.len(),
{
    if rs.len() > 0 {
        assert(rs[0].email@ != e);
        assert(forall|x: int|
            0 <= x < rs.drop_first().len() ==> (#[trigger] rs.drop_first()[x]).email@ != e) by {
            assert(forall|x: int|
                0 <= x < rs.drop_first().len() ==> rs.drop_first()[x] == rs[x + 1]);
        }
        lemma_no_entry(rs.drop_first(), e);
    }
}

/// Everything the `check` reply promises, over the contacts given,
/// the router consulted for fallbacks, and the entries returned.
pub open spec fn check_post<W>(
    contacts: Seq<(String, ContactFetch)>,
    rtr: LocalRouter<W>,
    rs: Seq<UserDevicesResponse>,
) -> bool {
    // every entry's email comes from the contacts, each at most once
    &&& forall|i: int|
        0 <= i < rs.len() ==> contact_email_member(contacts, (#[trigger] rs[i]).email@)
    &&& forall|i: int, j: int|
        0 <= i < j < rs.len() ==> (#[trigger] rs[i]).email@ != (#[trigger] rs[j]).email@
    // no empty entries
    &&& forall|i: int| 0 <= i < rs.len() ==> (#[trigger] rs[i]).devices@.len() > 0
    // each device id at most once within an entry
    &&& forall|i: int, a: int, b: int|
        0 <= i < rs.len() && 0 <= a < b < rs[i].devices@.len() ==> (#[trigger] rs[
        i].devices@[a])@.device_id != (#[trigger] rs[i].devices@[b])@.device_id
    // entries hold what the fetch yields
    &&& forall|k: int|
        0 <= k < contacts.len() ==> match (#[trigger] contacts[k]).1@ {
            FetchView::Devices(ts) => {
                let ds = fetched_devices(ts);
                if ds.len() > 0 {
                    has_entry(rs, contacts[k].0@, ds)
                } else {
                    !entry_email_member(rs, contacts[k].0@)
                }
            },
            FetchView::RegistryFailed => true,
        }
    // fallback entries come from the local snapshot
    &&& forall|i: int, a: int|
        0 <= i < rs.len() && 0 <= a < rs[i].devices@.len() && failed_contact(
            contacts,
            rs[i].email@,
        ) ==> presence_of(rtr, rs[i].email@, (#[trigger] rs[i].devices@[a])@.device_id) == Some(
            rs[i].devices@[a]@,
        )
}

/// Computes the `check` reply entries from each contact's fetch.
///
/// At most one entry per contact email (the contacts are required
/// distinct); within an entry each device id appears at most once;
/// contacts with no devices are omitted.
pub fn check_users<W>(contacts: &Vec<(String, ContactFetch)>, router: &LocalRouter<W>) -> (r: Vec<
    UserDevicesResponse,
>)
    requires
        router_wf(*router),
        forall|i: int, j: int|
            0 <= i < j < contacts@.len() ==> (#[trigger] contacts@[i]).0@ != (
            #[trigger] contacts@[j]).0@,
    ensures
        check_post(contacts@, *router, r@),
{
    let mut out: Vec<UserDevicesResponse> = Vec::new();
    let ghost mut src: Seq<int> = Seq::empty();
    let ghost mut ent: Map<int, int> = Map::empty();
    let mut i: usize = 0;
    while i < contacts.len()
        invariant
            router_wf(*router),
            0 <= i <= contacts@.len(),
            forall|a: int, b: int|
                0 <= a < b < contacts@.len() ==> (#[trigger] contacts@[a]).0@ != (
                #[trigger] contacts@[b]).0@,
            src.len() == out@.len(),
            forall|x: int|
                0 <= x < out@.len() ==> 0 <= #[trigger] src[x] < i && contacts@[src[x]].0@
                    == out@[x].email@,
            forall|x: int, y: int|
                0 <= x < y < out@.len() ==> (#[trigger] out@[x]).email@ != (
                #[trigger] out@[y]).email@,
            forall|x: int| 0 <= x < out@.len() ==> (#[trigger] out@[x]).devices@.len() > 0,
            forall|x: int, a: int, b: int|
                0 <= x < out@.len() && 0 <= a < b < out@[x].devices@.len() ==> (#[trigger] out@[
                x].devices@[a])@.device_id != (#[trigger] out@[x].devices@[b])@.device_id,
            forall|k: int|
                0 <= k < i ==> match (#[trigger] contacts@[k]).1@ {
                    FetchView::Devices(ts) => {
                        let ds = fetched_devices(ts);
                        if ds.len() > 0 {
                            ent.contains_key(k) && 0 <= ent[k] < out@.len() && out@[
                            ent[k]].email@ == contacts@[k].0@ && out@[ent[k]].devices@.map(
                                |m: int, d: DeviceInfo| d@,
                            ) == ds
                        } else {
                            forall|x: int| 0 <= x < out@.len() ==> (#[trigger] out@[x]).email@
                                != contacts@[k].0@
                        }
                    },
                    FetchView::RegistryFailed => true,
                },
            forall|x: int, a: int|
                0 <= x < out@.len() && 0 <= a < out@[x].devices@.len() && contacts@[
                src[x]].1@ is RegistryFailed ==> presence_of(
                    *router,
                    out@[x].email@,
                    (#[trigger] out@[x].devices@[a])@.device_id,
                ) == Some(out@[x].devices@[a]@),
        decreases contacts.len() - i,
    {
        let email = &contacts[i].0;
        let devices: Vec<DeviceInfo> = match &contacts[i].1 {
            ContactFetch::Devices(ts) => decode_devices(ts),
            ContactFetch::RegistryFailed => router.local_devices(email.as_str()),
        };
        proof {
            match contacts@[i as int].1@ {
                FetchView::Devices(ts) => {
                    lemma_fetched_distinct(ts, ts.len() as int);
                    assert(devices@.map(|m: int, d: DeviceInfo| d@) == fetched_devices(ts));
                    assert(devices@.len() == fetched_devices(ts).len());
                    assert forall|a: int, b: int|
                        0 <= a < b < devices@.len() implies (#[trigger] devices@[a])@.device_id
                            != (#[trigger] devices@[b])@.device_id by {
                        assert(fetched_devices(ts)[a] == devices@[a]@);
                        assert(fetched_devices(ts)[b] == devices@[b]@);
                    }
                },
                FetchView::RegistryFailed => {},
            }
        }
        if devices.len() > 0 {
            let entry = UserDevicesResponse { email: email.clone(), devices };
            out.push(entry);
            proof {
                let x = out@.len() - 1;
                src = src.push(i as int);
                ent = ent.insert(i as int, x);
                assert(out@[x].email@ == contacts@[i as int].0@);
                assert forall|y: int| 0 <= y < x implies (#[trigger] out@[y]).email@ != out@[
                    x].email@ by {
                    assert(0 <= src[y] < i && contacts@[src[y]].0@ == out@[y].email@);
                    assert(contacts@[src[y]].0@ != contacts@[i as int].0@);
                }
            }
        } else {
            proof {
                assert forall|y: int| 0 <= y < out@.len() implies (#[trigger] out@[y]).email@
                    != contacts@[i as int].0@ by {
                    assert(0 <= src[y] < i && contacts@[src[y]].0@ == out@[y].email@);
                    assert(contacts@[src[y]].0@ != contacts@[i as int].0@);
                }
            }
        }
        i += 1;
    }
    proof {
        assert forall|x: int| 0 <= x < out@.len() implies contact_email_member(
            contacts@,
            (#[trigger] out@[x]).email@,
        ) by {
            lemma_contact_email_at(contacts@, src[x]);
        }
        assert forall|k: int| 0 <= k < contacts@.len() implies match (
        #[trigger] contacts@[k]).1@ {
            FetchView::Devices(ts) => {
                let ds = fetched_devices(ts);
                if ds.len() > 0 {
                    has_entry(out@, contacts@[k].0@, ds)
                } else {
                    !entry_email_member(out@, contacts@[k].0@)
                }
            },
            FetchView::RegistryFailed => true,
        } by {
            match contacts@[k].1@ {
                FetchView::Devices(ts) => {
                    let ds = fetched_devices(ts);
                    if ds.len() > 0 {
                        let x = ent[k];
                        assert(out@[x].email@ == contacts@[k].0@);
                        lemma_has_entry_at(out@, x, ds);
                    } else {
                        lemma_no_entry(out@, contacts@[k].0@);
                    }
                },
                FetchView::RegistryFailed => {},
            }
        }
        assert forall|x: int, a: int|
            0 <= x < out@.len() && 0 <= a < out@[x].devices@.len() && failed_contact(
                contacts@,
                out@[x].email@,
            ) implies presence_of(
            *router,
            out@[x].email@,
            (#[trigger] out@[x].devices@[a])@.device_id,
        ) == Some(out@[x].devices@[a]@) by {
            lemma_failed_contact_converse(contacts@, out@[x].email@);
            let k = choose|k: int|
                0 <= k < contacts@.len() && (#[trigger] contacts@[k]).0@ == out@[x].email@
                    && contacts@[k].1@ is RegistryFailed;
            assert(contacts@[src[x]].0@ == out@[x].email@);
            assert(k == src[x]);
        }
        assert(check_post(contacts@, *router, out@));
    }
    out
}


/// The JSON text of a `check` reply: an array with one object per
/// contact that is online.
pub fn check_users_response(entries: &Vec<UserDevicesResponse>) -> (r: String)
    ensures
        r@ == crate::json::enc(
            Json::Arr(
                entries@.map(
                    |i: int, e: UserDevicesResponse|
                        user_devices_json(e.email@, e.devices@.map(|m: int, d: DeviceInfo| d@)),
                ),
            ),
        ),
{
    let mut items: Vec<JsonValue> = Vec::new();
    let mut i: usize = 0;
    while i < entries.len()
        invariant
            0 <= i <= entries@.len(),
            items@.len() == i,
            forall|k: int|
                0 <= k < i ==> jv(#[trigger] items@[k]) == user_devices_json(
                    entries@[k].email@,
                    entries@[k].devices@.map(|m: int, d: DeviceInfo| d@),
                ),
        decreases entries.len() - i,
    {
        items.push(entries[i].to_json());
        i += 1;
    }
    let v = JsonValue::Arr(items);
    proof {
        crate::json::lemma_jv_seq(v->Arr_0@);
        assert(crate::json::jv_seq(v->Arr_0@) =~= entries@.map(
            |i: int, e: UserDevicesResponse|
                user_devices_json(e.email@, e.devices@.map(|m: int, d: DeviceInfo| d@)),
        ));
    }
    crate::json::json_encode(&v)
}

} // verus!
