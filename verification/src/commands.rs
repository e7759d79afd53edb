//! The logic of the mdevctl commands: what each command decides from the state it is shown,
//! and the text it prints.

use vstd::prelude::*;
use crate::error::DeviceError;
use crate::groups::{Groups, flatten, total_len, lemma_flatten_prefix};
use crate::json::{JsonValue, JsonData, json_data, json_data_seq, json_entries, lemma_json_data_seq, lemma_json_entries, json_pretty_text};
use crate::groups::{groups_view, sort_groups, keys_increasing};
use crate::mdev::{MDev, MDevType, MDevTypeView, type_json, FormatType, keyed_config_json, config_json, device_text, text_refused};
use crate::sorting::SortKey;

verus! {

/// Whether every device has a type.
pub open spec fn all_typed(s: Seq<MDev>) -> bool {
    forall|k: int| 0 <= k < s.len() ==> (#[trigger] s[k]).mdev_type is Some
}

/// Whether `e` reports the first device without a type.
pub open spec fn first_untyped_error(s: Seq<MDev>, e: DeviceError) -> bool {
    exists|k: int| 0 <= k < s.len() && (#[trigger] s[k]).mdev_type is None
        && (forall|j: int| 0 <= j < k ==> (#[trigger] s[j]).mdev_type is Some)
        && e == (DeviceError::MissingType { uuid: s[k].uuid })
}

/// Each parent with the keyed configurations of its devices.
pub open spec fn parents_json(g: Seq<(Seq<char>, Seq<MDev>)>) -> Seq<(Seq<char>, JsonData)> {
    g.map_values(|e: (Seq<char>, Seq<MDev>)| (e.0, JsonData::Array(e.1.map_values(|d: MDev| keyed_config_json(d@)))))
}

/// The JSON listing of devices by parent: `[]` when there are none, else
/// `[{parent: [{uuid: config}, ..], ..}]`.
pub open spec fn devices_json(g: Seq<(Seq<char>, Seq<MDev>)>) -> JsonData {
    if g.len() == 0 {
        JsonData::Array(Seq::empty())
    } else {
        JsonData::Array(seq![JsonData::Object(parents_json(g))])
    }
}

/// Formats devices by parent as pretty JSON; a device without a type is an error.
pub fn format_json(devices: &Groups<MDev>) -> (r: Result<String, DeviceError>)
    ensures
        r is Ok <==> all_typed(flatten(devices@)),
        r matches Ok(s) ==> s@ == json_pretty_text(devices_json(devices@)),
        r matches Err(e) ==> first_untyped_error(flatten(devices@), e),
{
    let ghost g = devices@;
    let entries = devices.entries();
    let mut parents: Vec<(String, JsonValue)> = Vec::new();
    let mut i: usize = 0;
    while i < entries.len()
        invariant
            0 <= i <= entries.len(),
            g == devices@,
            crate::groups::groups_view(entries@) == g,
            g.len() == entries.len(),
            all_typed(flatten(g.take(i as int))),
            json_entries(parents@) == parents_json(g.take(i as int)),
        decreases entries.len() - i,
    {
        proof { lemma_flatten_prefix(g, i as int); }
        let children = &entries[i].1;
        assert(children@ == g[i as int].1);
        let mut arr: Vec<JsonValue> = Vec::new();
        let mut j: usize = 0;
        while j < children.len()
            invariant
                0 <= j <= children.len(),
                children@ == g[i as int].1,
                i < g.len(),
                g == devices@,
                all_typed(flatten(g.take(i as int)) + children@.take(j as int)),
                json_data_seq(arr@) == children@.take(j as int).map_values(|d: MDev| keyed_config_json(d@)),
            decreases children.len() - j,
        {
            let ghost prefix = flatten(g.take(i as int)) + children@.take(j as int);
            match children[j].to_json(true) {
                Ok(jv) => {
                    let ghost before = arr@;
                    arr.push(jv);
                    proof {
                        lemma_json_data_seq(arr@);
                        lemma_json_data_seq(before);
                        assert(json_data_seq(arr@) =~= json_data_seq(before).push(json_data(jv)));
                        assert(children@.take(j + 1) =~= children@.take(j as int).push(children@[j as int]));
                        assert(children@.take(j + 1).map_values(|d: MDev| keyed_config_json(d@))
                            =~= children@.take(j as int).map_values(|d: MDev| keyed_config_json(d@)).push(keyed_config_json(children@[j as int]@)));
                        assert(flatten(g.take(i as int)) + children@.take(j + 1) =~= prefix.push(children@[j as int]));
                    }
                },
                Err(e) => {
                    proof {
                        let whole = flatten(g);
                        lemma_flatten_prefix(g, i as int);
                        lemma_flatten_prefix(g, i + 1);
                        let k = prefix.len() as int;
                        let f = flatten(g.take(i as int));
                        let f1 = flatten(g.take(i + 1));
                        assert(f1 == f + children@);
                        assert(f1.is_prefix_of(whole));
                        assert(f1[k] == children@[j as int]);
                        assert(whole.subrange(0, f1.len() as int)[k] == whole[k]);
                        assert(whole[k] == children@[j as int]);
                        assert forall|jj: int| 0 <= jj < k implies (#[trigger] whole[jj]).mdev_type is Some by {
                            assert(whole.subrange(0, f1.len() as int)[jj] == whole[jj]);
                            assert(f1[jj] == prefix[jj]);
                        }
                        assert(whole[k].mdev_type is None);
                        assert(!all_typed(whole));
                        assert(e == (DeviceError::MissingType { uuid: whole[k].uuid }));
                        assert(first_untyped_error(whole, e));
                    }
                    return Err(e);
                },
            }
            j = j + 1;
        }
        let ghost before = parents@;
        let ghost av = arr@;
        parents.push((entries[i].0.clone(), JsonValue::Array(arr)));
        proof {
            lemma_json_entries(parents@);
            lemma_json_entries(before);
            assert(children@.take(j as int) =~= children@);
            assert(json_entries(parents@) =~= json_entries(before).push((g[i as int].0, JsonData::Array(json_data_seq(av)))));
            assert(g.take(i + 1) =~= g.take(i as int).push(g[i as int]));
            assert(parents_json(g.take(i + 1)) =~= parents_json(g.take(i as int)).push((g[i as int].0,
                JsonData::Array(g[i as int].1.map_values(|d: MDev| keyed_config_json(d@))))));
            assert(flatten(g.take(i + 1)) == flatten(g.take(i as int)) + children@);
        }
        i = i + 1;
    }
    assert(g.take(i as int) =~= g);
    let val = if parents.len() == 0 {
        let empty: Vec<JsonValue> = Vec::new();
        proof {
            lemma_json_data_seq(empty@);
            assert(json_data_seq(empty@) =~= Seq::<JsonData>::empty());
        }
        JsonValue::Array(empty)
    } else {
        let ghost pv = parents@;
        let mut outer: Vec<JsonValue> = Vec::new();
        outer.push(JsonValue::Object(parents));
        proof {
            lemma_json_data_seq(outer@);
            assert(json_data_seq(outer@) =~= seq![JsonData::Object(json_entries(pv))]);
        }
        JsonValue::Array(outer)
    };
    Ok(crate::json::serde_pretty(&val))
}

/// A device found for a listing, with whether a stored definition exists for it.
#[derive(Debug)]
pub struct ListedDevice {
    pub dev: MDev,
    pub defined: bool,
}

impl SortKey for ListedDevice {
    open spec fn key_le(a: Self, b: Self) -> bool {
        a.dev.uuid <= b.dev.uuid
    }

    fn key_le_exec(&self, other: &Self) -> (r: bool) {
        self.dev.uuid <= other.dev.uuid
    }

    proof fn lemma_key_le_total(a: Self, b: Self) {
    }

    proof fn lemma_key_le_transitive(a: Self, b: Self, c: Self) {
    }
}

/// The text line of a listed device, or nothing when the device cannot be listed this way.
pub open spec fn entry_text(e: ListedDevice, fmt: FormatType, verbose: bool) -> Seq<char> {
    if !text_refused(e.dev@, fmt, e.defined) && e.dev.parent is Some && e.dev.mdev_type is Some {
        device_text(e.dev@, fmt, verbose, e.defined)
    } else {
        Seq::empty()
    }
}

/// The text lines of the listed devices, in order.
pub open spec fn listing_text(s: Seq<ListedDevice>, fmt: FormatType, verbose: bool) -> Seq<char>
    decreases s.len(),
{
    if s.len() == 0 {
        Seq::empty()
    } else {
        listing_text(s.drop_last(), fmt, verbose) + entry_text(s.last(), fmt, verbose)
    }
}

/// The devices of listed devices, by parent.
pub open spec fn strip_view(g: Seq<(Seq<char>, Seq<ListedDevice>)>) -> Seq<(Seq<char>, Seq<MDev>)> {
    g.map_values(|e: (Seq<char>, Seq<ListedDevice>)| (e.0, e.1.map_values(|l: ListedDevice| l.dev)))
}

fn strip(g: Groups<ListedDevice>) -> (r: Groups<MDev>)
    requires
        g.wf(),
    ensures
        r.wf(),
        r@ == strip_view(g@),
{
    let ghost gv = g@;
    let mut input = g.into_entries();
    let mut out: Vec<(String, Vec<MDev>)> = Vec::new();
    let n = input.len();
    let mut i: usize = 0;
    while i < n
        invariant
            n == gv.len(),
            0 <= i <= n,
            input@.len() == n - i,
            groups_view(input@) == gv.skip(i as int),
            groups_view(out@) == strip_view(gv.take(i as int)),
        decreases n - i,
    {
        let ghost before_in = input@;
        let (k, mut members) = input.remove(0);
        assert(groups_view(before_in)[0] == (k@, members@));
        assert(gv.skip(i as int)[0] == gv[i as int]);
        assert(groups_view(input@) =~= gv.skip(i + 1)) by {
            assert forall|j: int| 0 <= j < input@.len() implies groups_view(input@)[j] == gv.skip(i + 1)[j] by {
                assert(groups_view(before_in)[j + 1] == gv.skip(i as int)[j + 1]);
            }
        }
        let ghost mv = members@;
        let mut devs: Vec<MDev> = Vec::new();
        let m = members.len();
        let mut j: usize = 0;
        while j < m
            invariant
                m == mv.len(),
                0 <= j <= m,
                members@ == mv.skip(j as int),
                devs@ == mv.take(j as int).map_values(|l: ListedDevice| l.dev),
            decreases m - j,
        {
            let l = members.remove(0);
            assert(l == mv[j as int]);
            assert(members@ =~= mv.skip(j + 1));
            devs.push(l.dev);
            assert(devs@ =~= mv.take(j + 1).map_values(|l: ListedDevice| l.dev));
            j = j + 1;
        }
        assert(mv.take(m as int) =~= mv);
        let ghost before = out@;
        out.push((k, devs));
        assert(groups_view(out@) =~= strip_view(gv.take(i + 1))) by {
            assert(groups_view(out@) =~= groups_view(before).push((k@, devs@)));
            assert(gv.take(i + 1) =~= gv.take(i as int).push(gv[i as int]));
        }
        i = i + 1;
    }
    assert(gv.take(n as int) =~= gv);
    assert(keys_increasing(groups_view(out@))) by {
        assert forall|a: int, b: int| 0 <= a < b < groups_view(out@).len()
            implies crate::text::lex_lt(#[trigger] groups_view(out@)[a].0, #[trigger] groups_view(out@)[b].0) by {
            assert(groups_view(out@)[a].0 == gv[a].0 && groups_view(out@)[b].0 == gv[b].0);
        }
    }
    Groups::from_sorted(out)
}

/// The output of `list` for the devices found (already narrowed to the UUID and parent
/// asked for), each group sorted by UUID. As JSON: the whole listing unless a UUID was asked
/// for and it matched one device, which is then shown as its bare configuration (or `[]` when
/// nothing matched). As text: the line of each device that can be listed this way.
pub open spec fn list_result(g: Seq<(Seq<char>, Seq<ListedDevice>)>, defined: bool, dumpjson: bool, verbose: bool,
    uuid: Option<u128>, r: Result<String, DeviceError>) -> bool
{
    let sorted = sort_groups(g);
    if dumpjson {
        if uuid is None || total_len(sorted) > 1 {
            let devs = strip_view(sorted);
            &&& r is Ok <==> all_typed(flatten(devs))
            &&& r matches Ok(s) ==> s@ == json_pretty_text(devices_json(devs))
            &&& r matches Err(e) ==> first_untyped_error(flatten(devs), e)
        } else if sorted.len() == 0 {
            r matches Ok(s) && s@ == json_pretty_text(JsonData::Array(Seq::empty()))
        } else if sorted[0].1.len() == 0 {
            r matches Err(DeviceError::FailedToGetDevice)
        } else {
            let d = sorted[0].1[0].dev;
            match d.mdev_type {
                Some(_) => r matches Ok(s) && s@ == json_pretty_text(config_json(d@)),
                None => r == Err::<String, DeviceError>(DeviceError::MissingType { uuid: d.uuid }),
            }
        }
    } else {
        r matches Ok(s) && s@ == listing_text(flatten(sorted), if defined { FormatType::Defined } else { FormatType::Active }, verbose)
    }
}

/// The text lines of all devices, group after group.
fn listing(g: &Groups<ListedDevice>, fmt: FormatType, verbose: bool) -> (r: String)
    ensures
        r@ == listing_text(flatten(g@), fmt, verbose),
{
    let ghost gv = g@;
    let entries = g.entries();
    let mut out = String::new();
    let mut i: usize = 0;
    while i < entries.len()
        invariant
            0 <= i <= entries.len(),
            groups_view(entries@) == gv,
            gv.len() == entries.len(),
            out@ == listing_text(flatten(gv.take(i as int)), fmt, verbose),
        decreases entries.len() - i,
    {
        proof { lemma_flatten_prefix(gv, i as int); }
        let children = &entries[i].1;
        assert(children@ == gv[i as int].1);
        let mut j: usize = 0;
        while j < children.len()
            invariant
                0 <= j <= children.len(),
                children@ == gv[i as int].1,
                i < gv.len(),
                out@ == listing_text(flatten(gv.take(i as int)) + children@.take(j as int), fmt, verbose),
            decreases children.len() - j,
        {
            let ghost prefix = flatten(gv.take(i as int)) + children@.take(j as int);
            let e = &children[j];
            match e.dev.to_text(fmt, verbose, e.defined) {
                Ok(t) => crate::text::push_str(&mut out, t.as_str()),
                Err(_) => {},
            }
            proof {
                assert(flatten(gv.take(i as int)) + children@.take(j + 1) =~= prefix.push(children@[j as int]));
                assert(prefix.push(children@[j as int]).drop_last() =~= prefix);
            }
            j = j + 1;
        }
        assert(children@.take(j as int) =~= children@);
        i = i + 1;
    }
    assert(gv.take(i as int) =~= gv);
    out
}

/// The output of `list` for the devices found (already narrowed to the UUID and parent asked
/// for); see [`list_result`].
pub fn list_command_helper(devices: Groups<ListedDevice>, defined: bool, dumpjson: bool, verbose: bool,
    uuid: Option<u128>) -> (r: Result<String, DeviceError>)
    requires
        devices.wf(),
    ensures
        list_result(devices@, defined, dumpjson, verbose, uuid, r),
{
    let sorted = devices.sort_members();
    if dumpjson {
        if uuid.is_none() || sorted.more_than_one() {
            let devs = strip(sorted);
            format_json(&devs)
        } else {
            let entries = sorted.entries();
            if entries.len() == 0 {
                let empty: Vec<JsonValue> = Vec::new();
                proof {
                    lemma_json_data_seq(empty@);
                    assert(json_data_seq(empty@) =~= Seq::<JsonData>::empty());
                }
                return Ok(crate::json::serde_pretty(&JsonValue::Array(empty)));
            }
            assert(entries@[0].1@ == sorted@[0].1);
            if entries[0].1.len() == 0 {
                return Err(DeviceError::FailedToGetDevice);
            }
            let j = entries[0].1[0].dev.to_json(false)?;
            Ok(crate::json::serde_pretty(&j))
        }
    } else {
        let ft = if defined { FormatType::Defined } else { FormatType::Active };
        Ok(listing(&sorted, ft, verbose))
    }
}

/// The text block of one type.
pub open spec fn type_text(t: MDevTypeView) -> Seq<char> {
    "  "@ + t.typename + "\n"@
        + "    Available instances: "@ + crate::text::signed_decimal(t.available_instances as int) + "\n"@
        + "    Device API: "@ + t.device_api + "\n"@
        + (if t.name.len() > 0 { "    Name: "@ + t.name + "\n"@ } else { Seq::empty() })
        + (if t.description.len() > 0 { "    Description: "@ + t.description + "\n"@ } else { Seq::empty() })
}

/// The text block of a type ends with the line `    Description: <description>` exactly when
/// the description is not empty, whatever the name: giving a type a description adds just that
/// line at the end of its block, and giving a type without a description a name adds just the
/// line `    Name: <name>` at the end of its block.
pub proof fn lemma_type_text_lines(t: MDevTypeView, name: Seq<char>, description: Seq<char>)
    requires
        name.len() > 0,
        description.len() > 0,
    ensures
        type_text(MDevTypeView { description, ..t })
            == type_text(MDevTypeView { description: Seq::empty(), ..t }) + "    Description: "@ + description + "\n"@,
        type_text(MDevTypeView { name, description: Seq::empty(), ..t })
            == type_text(MDevTypeView { name: Seq::empty(), description: Seq::empty(), ..t }) + "    Name: "@ + name + "\n"@,
        t.description.len() > 0 ==> type_text(t).len() >= t.description.len() + 18
            && type_text(t).subrange(type_text(t).len() - t.description.len() - 18, type_text(t).len() as int)
                == "    Description: "@ + t.description + "\n"@,
{
    reveal_strlit("    Description: ");
    let with = MDevTypeView { description, ..t };
    let without = MDevTypeView { description: Seq::empty(), ..t };
    assert(type_text(with) =~= type_text(without) + "    Description: "@ + description + "\n"@);
    let named = MDevTypeView { name, description: Seq::empty(), ..t };
    let unnamed = MDevTypeView { name: Seq::empty(), description: Seq::empty(), ..t };
    assert(type_text(named) =~= type_text(unnamed) + "    Name: "@ + name + "\n"@);
    if t.description.len() > 0 {
        let line = "    Description: "@ + t.description + "\n"@;
        let pre = type_text(MDevTypeView { description: Seq::empty(), ..t });
        assert(type_text(t) =~= pre + line);
        assert("    Description: "@.len() == 17);
        assert("\n"@.len() == 1) by { reveal_strlit("\n"); }
        assert(line.len() == t.description.len() + 18);
        assert((pre + line).subrange(pre.len() as int, (pre + line).len() as int) =~= line);
    }
}

/// The text blocks of a parent's types, in order.
pub open spec fn types_text(ts: Seq<MDevType>) -> Seq<char>
    decreases ts.len(),
{
    if ts.len() == 0 {
        Seq::empty()
    } else {
        types_text(ts.drop_last()) + type_text(ts.last()@)
    }
}

/// The text listing of types: each parent's name on a line, followed by its types.
pub open spec fn parents_types_text(g: Seq<(Seq<char>, Seq<MDevType>)>) -> Seq<char>
    decreases g.len(),
{
    if g.len() == 0 {
        Seq::empty()
    } else {
        parents_types_text(g.drop_last()) + g.last().0 + "\n"@ + types_text(g.last().1)
    }
}

/// The JSON listing of types: `[]` when there are no parents, else
/// `[{parent: [{type: {..}}, ..], ..}]`.
pub open spec fn types_json(g: Seq<(Seq<char>, Seq<MDevType>)>) -> JsonData {
    if g.len() == 0 {
        JsonData::Array(Seq::empty())
    } else {
        JsonData::Array(seq![JsonData::Object(
            g.map_values(|e: (Seq<char>, Seq<MDevType>)| (e.0, JsonData::Array(e.1.map_values(|t: MDevType| type_json(t@))))))])
    }
}

fn push_type_text(out: &mut String, t: &MDevType)
    ensures
        final(out)@ == old(out)@ + type_text(t@),
{
    let ghost start = out@;
    crate::text::push_str(out, "  ");
    crate::text::push_str(out, t.typename.as_str());
    crate::text::push_str(out, "\n");
    crate::text::push_str(out, "    Available instances: ");
    crate::text::push_signed_decimal(out, t.available_instances as i64);
    crate::text::push_str(out, "\n");
    crate::text::push_str(out, "    Device API: ");
    crate::text::push_str(out, t.device_api.as_str());
    crate::text::push_str(out, "\n");
    let ghost mid = out@;
    if !t.name.as_str().is_empty() {
        crate::text::push_str(out, "    Name: ");
        crate::text::push_str(out, t.name.as_str());
        crate::text::push_str(out, "\n");
    }
    let ghost mid2 = out@;
    if !t.description.as_str().is_empty() {
        crate::text::push_str(out, "    Description: ");
        crate::text::push_str(out, t.description.as_str());
        crate::text::push_str(out, "\n");
    }
    assert(out@ =~= start + type_text(t@));
}

/// The output of `types` for the supported types by parent, as text or as pretty JSON.
pub fn types_command_helper(types: &Groups<MDevType>, dumpjson: bool) -> (r: Result<String, DeviceError>)
    ensures
        r matches Ok(s) && s@ == if dumpjson { json_pretty_text(types_json(types@)) } else { parents_types_text(types@) },
{
    let ghost g = types@;
    let entries = types.entries();
    if dumpjson {
        let mut parents: Vec<(String, JsonValue)> = Vec::new();
        let mut i: usize = 0;
        while i < entries.len()
            invariant
                0 <= i <= entries.len(),
                groups_view(entries@) == g,
                g.len() == entries.len(),
                json_entries(parents@) == g.take(i as int).map_values(|e: (Seq<char>, Seq<MDevType>)|
                    (e.0, JsonData::Array(e.1.map_values(|t: MDevType| type_json(t@))))),
            decreases entries.len() - i,
        {
            let children = &entries[i].1;
            assert(children@ == g[i as int].1);
            let mut arr: Vec<JsonValue> = Vec::new();
            let mut j: usize = 0;
            while j < children.len()
                invariant
                    0 <= j <= children.len(),
                    json_data_seq(arr@) == children@.take(j as int).map_values(|t: MDevType| type_json(t@)),
                decreases children.len() - j,
            {
                let jv = match children[j].to_json() {
                    Ok(v) => v,
                    Err(_) => {
                        assert(false);
                        return Err(DeviceError::UnknownError);
                    },
                };
                let ghost before = arr@;
                arr.push(jv);
                proof {
                    lemma_json_data_seq(arr@);
                    lemma_json_data_seq(before);
                    assert(json_data_seq(arr@) =~= json_data_seq(before).push(json_data(jv)));
                    assert(children@.take(j + 1) =~= children@.take(j as int).push(children@[j as int]));
                    assert(children@.take(j + 1).map_values(|t: MDevType| type_json(t@))
                        =~= children@.take(j as int).map_values(|t: MDevType| type_json(t@)).push(type_json(children@[j as int]@)));
                }
                j = j + 1;
            }
            let ghost before = parents@;
            let ghost av = arr@;
            parents.push((entries[i].0.clone(), JsonValue::Array(arr)));
            proof {
                lemma_json_entries(parents@);
                lemma_json_entries(before);
                assert(children@.take(j as int) =~= children@);
                assert(json_entries(parents@) =~= json_entries(before).push((g[i as int].0, JsonData::Array(json_data_seq(av)))));
                assert(g.take(i + 1) =~= g.take(i as int).push(g[i as int]));
            }
            i = i + 1;
        }
        assert(g.take(i as int) =~= g);
        let val = if parents.len() == 0 {
            let empty: Vec<JsonValue> = Vec::new();
            proof {
                lemma_json_data_seq(empty@);
                assert(json_data_seq(empty@) =~= Seq::<JsonData>::empty());
            }
            JsonValue::Array(empty)
        } else {
            let ghost pv = parents@;
            let mut outer: Vec<JsonValue> = Vec::new();
            outer.push(JsonValue::Object(parents));
            proof {
                lemma_json_data_seq(outer@);
                assert(json_data_seq(outer@) =~= seq![JsonData::Object(json_entries(pv))]);
            }
            JsonValue::Array(outer)
        };
        Ok(crate::json::serde_pretty(&val))
    } else {
        let mut out = String::new();
        let mut i: usize = 0;
        while i < entries.len()
            invariant
                0 <= i <= entries.len(),
                groups_view(entries@) == g,
                g.len() == entries.len(),
                out@ == parents_types_text(g.take(i as int)),
            decreases entries.len() - i,
        {
            let ghost before = out@;
            crate::text::push_str(&mut out, entries[i].0.as_str());
            crate::text::push_str(&mut out, "\n");
            let ghost head = out@;
            let children = &entries[i].1;
            assert(children@ == g[i as int].1);
            let mut j: usize = 0;
            while j < children.len()
                invariant
                    0 <= j <= children.len(),
                    out@ == head + types_text(children@.take(j as int)),
                decreases children.len() - j,
            {
                push_type_text(&mut out, &children[j]);
                proof {
                    assert(children@.take(j + 1).drop_last() =~= children@.take(j as int));
                    assert(children@.take(j + 1).last() == children@[j as int]);
                }
                j = j + 1;
            }
            proof {
                assert(children@.take(j as int) =~= children@);
                assert(g.take(i + 1).drop_last() =~= g.take(i as int));
                assert(g.take(i + 1).last() == g[i as int]);
                assert(out@ =~= before + g[i as int].0 + "\n"@ + types_text(g[i as int].1));
            }
            i = i + 1;
        }
        assert(g.take(i as int) =~= g);
        Ok(out)
    }
}

/// The UUID of a device being made: the one given, or a new random (version 4, RFC 4122
/// variant) one.
pub fn device_uuid(uuid: Option<u128>) -> (u: u128)
    ensures
        uuid matches Some(v) ==> u == v,
        uuid is None ==> (u as nat / 0x1_0000_0000_0000_0000_000) % 16 == 4,
        uuid is None ==> (u as nat / 0x4000_0000_0000_0000) % 4 == 2,
{
    match uuid {
        Some(v) => v,
        None => crate::ids::random_uuid(),
    }
}

/// Checks the options of `define` with a JSON file (`file` is its path): a type cannot be
/// given separately and a parent is needed, which is returned.
pub fn define_json_checks(file: &str, parent: Option<String>, mdev_type: &Option<String>) -> (r: Result<String, DeviceError>)
    ensures
        mdev_type is Some ==> (r matches Err(DeviceError::TypeWithJsonFile { file: f }) && f@ == crate::callouts::debug_text(file@)),
        mdev_type is None && parent is None ==> (r matches Err(DeviceError::ParentRequiredForJsonFile { file: f })
            && f@ == crate::callouts::debug_text(file@)),
        mdev_type is None && parent is Some ==> r == Ok::<String, DeviceError>(parent->0),
{
    if mdev_type.is_some() {
        return Err(DeviceError::TypeWithJsonFile { file: crate::callouts::debug_quoted(file) });
    }
    match parent {
        Some(p) => Ok(p),
        None => Err(DeviceError::ParentRequiredForJsonFile { file: crate::callouts::debug_quoted(file) }),
    }
}

/// Refuses to define from a JSON file over existing definitions of the device under the
/// parent (`existing` is what was found for that UUID and parent).
pub fn refuse_overwrite(existing: &Groups<MDev>, parent: &str, uuid: u128) -> (r: Result<(), DeviceError>)
    ensures
        existing@.len() == 0 ==> r is Ok,
        existing@.len() > 0 ==> (r matches Err(DeviceError::ConfigExists { parent: p, uuid: u }) && p@ == parent@ && u == uuid),
{
    if existing.len() > 0 {
        return Err(DeviceError::ConfigExists { parent: parent.to_owned(), uuid });
    }
    Ok(())
}

/// The device that `define` makes from its options. `dev` is the device under the UUID as
/// sysfs shows it (when a UUID was given; else a fresh device). Without a given parent, a
/// given UUID must belong to a running device and no type may be given. The start mode is
/// set, a given parent or type replaces what sysfs showed, and both must then be known.
pub fn define_from_args(dev: MDev, uuid_provided: bool, auto: bool, parent: Option<String>, mdev_type: Option<String>)
    -> (r: Result<MDev, DeviceError>)
    ensures
        uuid_provided && parent is None && (!dev.active || mdev_type is Some) ==> r == Err::<MDev, DeviceError>(DeviceError::NoParent),
        !(uuid_provided && parent is None && (!dev.active || mdev_type is Some)) ==> ({
            let p = if parent is Some { crate::mdev::opt_view(parent) } else { dev@.parent };
            let t = if mdev_type is Some { crate::mdev::opt_view(mdev_type) } else { dev@.mdev_type };
            if p is None {
                r == Err::<MDev, DeviceError>(DeviceError::NoParent)
            } else if t is None {
                r == Err::<MDev, DeviceError>(DeviceError::NoType)
            } else {
                r matches Ok(d) && d@ == (crate::mdev::MDevView { autostart: auto, parent: p, mdev_type: t, ..dev@ })
            }
        }),
{
    let mut dev = dev;
    if uuid_provided && parent.is_none() && (!dev.active || mdev_type.is_some()) {
        return Err(DeviceError::NoParent);
    }
    dev.autostart = auto;
    if parent.is_some() {
        dev.parent = parent;
    }
    if mdev_type.is_some() {
        dev.mdev_type = mdev_type;
    }
    if dev.parent.is_none() {
        return Err(DeviceError::NoParent);
    }
    if dev.mdev_type.is_none() {
        return Err(DeviceError::NoType);
    }
    Ok(dev)
}

/// The error for defining a device that is already defined.
pub fn already_defined(dev: &MDev) -> (e: DeviceError)
    requires
        dev.parent is Some,
    ensures
        e matches DeviceError::AlreadyDefined { uuid, parent } && uuid == dev.uuid && parent@ == dev.parent->0@,
{
    match &dev.parent {
        Some(p) => DeviceError::AlreadyDefined { uuid: dev.uuid, parent: p.clone() },
        None => DeviceError::NoParent,
    }
}

/// The devices that `undefine` removes: all definitions found (under every parent unless one
/// was asked for); finding none is an error.
pub fn undefine_targets(devs: Groups<MDev>) -> (r: Result<Vec<MDev>, DeviceError>)
    requires
        devs.wf(),
    ensures
        devs@.len() == 0 ==> r == Err::<Vec<MDev>, DeviceError>(DeviceError::NoMatchingDevices),
        devs@.len() > 0 ==> (r matches Ok(v) && v@ == flatten(devs@)),
{
    if devs.len() == 0 {
        return Err(DeviceError::NoMatchingDevices);
    }
    Ok(take_all(devs))
}

/// All members, group after group.
fn take_all(devs: Groups<MDev>) -> (r: Vec<MDev>)
    ensures
        r@ == flatten(devs@),
{
    let ghost gv = devs@;
    let mut input = devs.into_entries();
    let mut out: Vec<MDev> = Vec::new();
    let n = input.len();
    let mut i: usize = 0;
    while i < n
        invariant
            n == gv.len(),
            0 <= i <= n,
            input@.len() == n - i,
            groups_view(input@) == gv.skip(i as int),
            out@ == flatten(gv.take(i as int)),
        decreases n - i,
    {
        let ghost before_in = input@;
        let (_k, mut members) = input.remove(0);
        assert(groups_view(before_in)[0].1 == members@);
        assert(gv.skip(i as int)[0] == gv[i as int]);
        assert(groups_view(input@) =~= gv.skip(i + 1)) by {
            assert forall|j: int| 0 <= j < input@.len() implies groups_view(input@)[j] == gv.skip(i + 1)[j] by {
                assert(groups_view(before_in)[j + 1] == gv.skip(i as int)[j + 1]);
            }
        }
        proof { lemma_flatten_prefix(gv, i as int); }
        let ghost before = out@;
        out.append(&mut members);
        assert(out@ =~= flatten(gv.take(i + 1)));
        i = i + 1;
    }
    assert(gv.take(n as int) =~= gv);
    out
}

/// The outcome of `undefine` once every definition was handled: an error when any failed.
pub fn undefine_outcome(failed: bool) -> (r: Result<(), DeviceError>)
    ensures
        failed ==> r == Err::<(), DeviceError>(DeviceError::UndefineFailed),
        !failed ==> r is Ok,
{
    if failed {
        return Err(DeviceError::UndefineFailed);
    }
    Ok(())
}

/// The options that a live `modify` of a running device refuses: a type, automatic or manual
/// start.
pub fn modify_live_checks(mdev_type: &Option<String>, auto: bool, manual: bool) -> (r: Result<(), DeviceError>)
    ensures
        mdev_type is Some ==> r == Err::<(), DeviceError>(DeviceError::LiveTypeChange),
        mdev_type is None && auto ==> r == Err::<(), DeviceError>(DeviceError::LiveAutoChange),
        mdev_type is None && !auto && manual ==> r == Err::<(), DeviceError>(DeviceError::LiveManualChange),
        mdev_type is None && !auto && !manual ==> r is Ok,
{
    if mdev_type.is_some() {
        return Err(DeviceError::LiveTypeChange);
    }
    if auto {
        return Err(DeviceError::LiveAutoChange);
    }
    if manual {
        return Err(DeviceError::LiveManualChange);
    }
    Ok(())
}

/// The JSON file that a live `modify` reads the change from; there is no live change without
/// one.
pub fn live_json_file<T>(jsonfile: Option<T>) -> (r: Result<T, DeviceError>)
    ensures
        jsonfile is None ==> r == Err::<T, DeviceError>(DeviceError::LiveNeedsJsonFile),
        jsonfile matches Some(f) ==> r == Ok::<T, DeviceError>(f),
{
    match jsonfile {
        Some(f) => Ok(f),
        None => Err(DeviceError::LiveNeedsJsonFile),
    }
}

/// The parent of a running device that a live `modify` reads a JSON file for.
pub fn live_json_parent(active: &MDev) -> (r: Result<String, DeviceError>)
    ensures
        active.parent is None ==> r == Err::<String, DeviceError>(DeviceError::ParentRequiredForModifyJson),
        active.parent is Some ==> r == Ok::<String, DeviceError>(active.parent->0),
{
    match &active.parent {
        Some(p) => Ok(p.clone()),
        None => Err(DeviceError::ParentRequiredForModifyJson),
    }
}

/// A live change read from a JSON file may not change the running device's type or parent.
pub fn check_live_change(active: &MDev, changed: &MDev) -> (r: Result<(), DeviceError>)
    ensures
        changed@.mdev_type != active@.mdev_type ==> r == Err::<(), DeviceError>(DeviceError::LiveTypeChange),
        changed@.mdev_type == active@.mdev_type && changed@.parent != active@.parent
            ==> r == Err::<(), DeviceError>(DeviceError::LiveParentChange),
        changed@.mdev_type == active@.mdev_type && changed@.parent == active@.parent ==> r is Ok,
{
    if !crate::mdev::opt_text_eq(&changed.mdev_type, &active.mdev_type) {
        return Err(DeviceError::LiveTypeChange);
    }
    if !crate::mdev::opt_text_eq(&changed.parent, &active.parent) {
        return Err(DeviceError::LiveParentChange);
    }
    Ok(())
}

/// A live change that also updates the definition needs the definition to have the running
/// device's type.
pub fn check_live_defined(defined: &MDev, changed: &MDev) -> (r: Result<(), DeviceError>)
    ensures
        defined@.mdev_type != changed@.mdev_type ==> r == Err::<(), DeviceError>(DeviceError::LiveDefinedTypeMismatch),
        defined@.mdev_type == changed@.mdev_type ==> r is Ok,
{
    if !crate::mdev::opt_text_eq(&defined.mdev_type, &changed.mdev_type) {
        return Err(DeviceError::LiveDefinedTypeMismatch);
    }
    Ok(())
}

/// A stored definition changed by `modify`'s type and start options: a given type replaces
/// the stored one; automatic and manual start exclude each other.
pub fn modify_defined(dev: MDev, mdev_type: Option<String>, auto: bool, manual: bool) -> (r: Result<MDev, DeviceError>)
    ensures
        auto && manual ==> r == Err::<MDev, DeviceError>(DeviceError::AutoManualExclusive),
        !(auto && manual) ==> (r matches Ok(d) && d@ == (crate::mdev::MDevView {
            mdev_type: if mdev_type is Some { crate::mdev::opt_view(mdev_type) } else { dev@.mdev_type },
            autostart: if auto { true } else if manual { false } else { dev@.autostart },
            ..dev@
        })),
{
    let mut dev = dev;
    if mdev_type.is_some() {
        dev.mdev_type = mdev_type;
    }
    if auto && manual {
        return Err(DeviceError::AutoManualExclusive);
    }
    if auto {
        dev.autostart = true;
    } else if manual {
        dev.autostart = false;
    }
    Ok(dev)
}

/// A definition's attributes changed by `modify`: `addattr` adds the named attribute with
/// `value` (at `index`, else at the end), or else `delattr` deletes the attribute at `index`
/// (else the last one).
pub fn modify_attributes(dev: MDev, addattr: Option<String>, delattr: bool, index: Option<u32>, value: Option<String>)
    -> (r: Result<MDev, DeviceError>)
    ensures
        addattr is Some && value is None ==> r == Err::<MDev, DeviceError>(DeviceError::NoAttributeValue),
        addattr is None && !delattr ==> r == Ok::<MDev, DeviceError>(dev),
        addattr is Some && value is Some ==> ({
            let i = match index { Some(n) => Some(n as usize), None => None::<usize> };
            match i {
                Some(k) => if k > dev@.attrs.len() {
                    r matches Err(DeviceError::InvalidAttributeIndex { index: j, hint }) && j == k
                        && hint@ == crate::mdev::attribute_hint_text(dev@)
                } else {
                    r matches Ok(d) && d@ == dev@.with_attrs(dev@.attrs.insert(k as int, (addattr->0@, value->0@)))
                },
                None => r matches Ok(d) && d@ == dev@.with_attrs(dev@.attrs.push((addattr->0@, value->0@))),
            }
        }),
        addattr is None && delattr ==> ({
            let i = match index { Some(n) => Some(n as usize), None => None::<usize> };
            match i {
                Some(k) => if k >= dev@.attrs.len() {
                    r matches Err(DeviceError::InvalidAttributeIndex { index: j, hint }) && j == k
                        && hint@ == crate::mdev::attribute_hint_text(dev@)
                } else {
                    r matches Ok(d) && d@ == dev@.with_attrs(dev@.attrs.remove(k as int))
                },
                None => r matches Ok(d) && d@ == dev@.with_attrs(
                    if dev@.attrs.len() == 0 { dev@.attrs } else { dev@.attrs.drop_last() }),
            }
        }),
{
    let mut dev = dev;
    let index: Option<usize> = match index {
        Some(n) => Some(n as usize),
        None => None,
    };
    match addattr {
        Some(attr) => match value {
            None => return Err(DeviceError::NoAttributeValue),
            Some(v) => {
                dev.add_attribute(attr, v, index)?;
            },
        },
        None => {
            if delattr {
                dev.delete_attribute(index)?;
            }
        },
    }
    Ok(dev)
}

/// Checks the options of `start` with a JSON file: a type cannot be given separately and a
/// parent is needed, which is returned.
pub fn start_json_checks(parent: Option<String>, mdev_type: &Option<String>) -> (r: Result<String, DeviceError>)
    ensures
        mdev_type is Some ==> r == Err::<String, DeviceError>(DeviceError::StartTypeWithJsonFile),
        mdev_type is None && parent is None ==> r == Err::<String, DeviceError>(DeviceError::ParentRequiredForStartJson),
        mdev_type is None && parent is Some ==> r == Ok::<String, DeviceError>(parent->0),
{
    if mdev_type.is_some() {
        return Err(DeviceError::StartTypeWithJsonFile);
    }
    match parent {
        Some(p) => Ok(p),
        None => Err(DeviceError::ParentRequiredForStartJson),
    }
}

/// The device that `start` starts when no JSON file is given. When a UUID is given, the
/// definitions found for it (and the parent, if given) are in `defined`: more than one is an
/// error, and a single one is the device, unless a type was given that differs from its type.
/// Otherwise the device is made from the UUID (a new one when none is given), the parent and
/// the type, which must both be known.
pub fn start_from_args(uuid: Option<u128>, parent: Option<String>, mdev_type: Option<String>, defined: Groups<MDev>)
    -> (r: Result<MDev, DeviceError>)
    requires
        defined.wf(),
        uuid is Some && total_len(defined@) == 1 && mdev_type is Some
            && crate::mdev::opt_view(mdev_type) != flatten(defined@)[0]@.mdev_type
            ==> flatten(defined@)[0].parent is Some && flatten(defined@)[0].mdev_type is Some,
    ensures
        uuid is Some && total_len(defined@) > 1
            ==> r == Err::<MDev, DeviceError>(DeviceError::MultipleDefinitionsForStart { uuid: uuid->0 }),
        uuid is Some && total_len(defined@) == 1 ==> ({
            let d = flatten(defined@)[0];
            if mdev_type is Some && crate::mdev::opt_view(mdev_type) != d@.mdev_type {
                r matches Err(DeviceError::DefinedWithOtherType { uuid: u, parent: p, mdev_type: t })
                    && u == d.uuid && p@ == d.parent->0@ && t@ == d.mdev_type->0@
            } else {
                r == Ok::<MDev, DeviceError>(d)
            }
        }),
        uuid is None || total_len(defined@) == 0 ==> ({
            if mdev_type is Some && parent is None {
                r == Err::<MDev, DeviceError>(DeviceError::TypeWithoutParent)
            } else if mdev_type is None || parent is None {
                r == Err::<MDev, DeviceError>(DeviceError::InsufficientlySpecified)
            } else {
                r matches Ok(d) && d@.parent == crate::mdev::opt_view(parent) && d@.mdev_type == crate::mdev::opt_view(mdev_type)
                    && !d.active && !d.autostart && d@.attrs.len() == 0
                    && (uuid matches Some(u) ==> d.uuid == u)
                    && (uuid is None ==> (d.uuid as nat / 0x1_0000_0000_0000_0000_000) % 16 == 4
                        && (d.uuid as nat / 0x4000_0000_0000_0000) % 4 == 2)
            }
        }),
{
    proof { lemma_flatten_prefix(defined@, defined@.len() as int); }
    if uuid.is_some() {
        if defined.more_than_one() {
            return Err(DeviceError::MultipleDefinitionsForStart { uuid: device_uuid(uuid) });
        }
        let all = take_all(defined);
        if all.len() == 1 {
            let d = &all[0];
            let differs = match &mdev_type {
                Some(t) => !crate::mdev::opt_text_eq(&mdev_type, &d.mdev_type),
                None => false,
            };
            if differs {
                let p = match &d.parent { Some(p) => p.clone(), None => { assert(false); String::new() } };
                let t = match &d.mdev_type { Some(t) => t.clone(), None => { assert(false); String::new() } };
                return Err(DeviceError::DefinedWithOtherType { uuid: d.uuid, parent: p, mdev_type: t });
            }
            let mut all = all;
            return Ok(all.remove(0));
        }
    }
    let mut d = MDev::new(device_uuid(uuid));
    d.parent = parent;
    d.mdev_type = mdev_type;
    if d.mdev_type.is_some() && d.parent.is_none() {
        return Err(DeviceError::TypeWithoutParent);
    }
    if d.mdev_type.is_none() || d.parent.is_none() {
        return Err(DeviceError::InsufficientlySpecified);
    }
    Ok(d)
}

/// The devices that `start-parent-mdevs` starts: the definitions found for the parent that
/// start automatically, in order. Nothing found is fine; definitions under more than one
/// parent are an error.
pub fn autostart_devices(devs: Groups<MDev>) -> (r: Result<Vec<MDev>, DeviceError>)
    requires
        devs.wf(),
    ensures
        devs@.len() == 0 ==> (r matches Ok(v) && v@.len() == 0),
        devs@.len() > 1 ==> r == Err::<Vec<MDev>, DeviceError>(DeviceError::MoreThanOneParent),
        devs@.len() == 1 ==> (r matches Ok(v) && v@ == devs@[0].1.filter(|d: MDev| d.autostart)),
{
    if devs.len() == 0 {
        return Ok(Vec::new());
    }
    if devs.len() != 1 {
        return Err(DeviceError::MoreThanOneParent);
    }
    let ghost g = devs@;
    let mut entries = devs.into_entries();
    let (_k, mut children) = entries.remove(0);
    assert(children@ == g[0].1);
    let ghost cv = children@;
    let mut out: Vec<MDev> = Vec::new();
    let n = children.len();
    let mut i: usize = 0;
    assert(cv.take(0) =~= Seq::<MDev>::empty());
    while i < n
        invariant
            n == cv.len(),
            0 <= i <= n,
            children@ == cv.skip(i as int),
            out@ == cv.take(i as int).filter(|d: MDev| d.autostart),
        decreases n - i,
    {
        let d = children.remove(0);
        assert(d == cv[i as int]);
        assert(children@ =~= cv.skip(i + 1));
        assert(cv.take(i + 1).drop_last() =~= cv.take(i as int));
        reveal_with_fuel(Seq::filter, 1);
        if d.autostart {
            out.push(d);
        }
        i = i + 1;
    }
    assert(cv.take(n as int) =~= cv);
    Ok(out)
}

} // verus!
