//! The filesystem layout that mdevctl works in, and the selection of devices found there.

use vstd::prelude::*;
use crate::error::DeviceError;
use crate::groups::{Groups, groups_view, group_set, group_push, group_get, sort_groups, flatten, keys_increasing,
    lemma_group_set_all, lemma_group_get_entry, lemma_group_set_get, lemma_group_set_increasing, lemma_flatten_contains,
    lemma_flatten_all};
use crate::ids::{hyphenated, uuid_hyphenated};
use crate::mdev::{MDev, MDevType};
use crate::text::push_str;

verus! {

/// `base` joined with the relative or absolute path `rel`, as `PathBuf::join` does it on Unix:
/// an absolute `rel` replaces `base`; otherwise a '/' separates them unless `base` is empty
/// or already ends with one.
pub open spec fn path_join(base: Seq<char>, rel: Seq<char>) -> Seq<char> {
    if rel.len() > 0 && rel[0] == '/' {
        rel
    } else if base.len() == 0 {
        rel
    } else if base.last() == '/' {
        base + rel
    } else {
        base + seq!['/'] + rel
    }
}

/// Joins two paths as `PathBuf::join` does on Unix.
pub fn join(base: &str, rel: &str) -> (r: String)
    ensures
        r@ == path_join(base@, rel@),
{
    let nr = rel.unicode_len();
    if nr > 0 && rel.get_char(0) == '/' {
        return rel.to_owned();
    }
    let nb = base.unicode_len();
    if nb == 0 {
        return rel.to_owned();
    }
    let mut r = base.to_owned();
    if base.get_char(nb - 1) != '/' {
        crate::text::push_char(&mut r, '/');
    }
    push_str(&mut r, rel);
    r
}

/// The filesystem environment: a root directory and the directory holding the packaged
/// callout and notification scripts.
pub struct DefaultEnvironment {
    rootpath: String,
    scriptspath: String,
}

impl DefaultEnvironment {
    pub closed spec fn root_view(&self) -> Seq<char> {
        self.rootpath@
    }

    pub closed spec fn scripts_view(&self) -> Seq<char> {
        self.scriptspath@
    }

    /// An environment rooted at `root`, with packaged scripts under `scripts_base`.
    pub fn new(root: String, scripts_base: String) -> (e: DefaultEnvironment)
        ensures
            e.root_view() == root@,
            e.scripts_view() == scripts_base@,
    {
        DefaultEnvironment { rootpath: root, scriptspath: scripts_base }
    }

    /// The root directory.
    pub fn root(&self) -> (r: &String)
        ensures
            r@ == self.root_view(),
    {
        &self.rootpath
    }

    /// Where the packaged scripts live.
    pub fn scripts_base(&self) -> (r: String)
        ensures
            r@ == self.scripts_view(),
    {
        self.scriptspath.clone()
    }

    pub open spec fn mdev_base_view(&self) -> Seq<char> {
        path_join(self.root_view(), "sys/bus/mdev/devices"@)
    }

    pub open spec fn config_base_view(&self) -> Seq<char> {
        path_join(self.root_view(), "etc/mdevctl.d"@)
    }

    pub open spec fn parent_base_view(&self) -> Seq<char> {
        path_join(self.root_view(), "sys/class/mdev_bus"@)
    }

    pub open spec fn config_scripts_base_view(&self) -> Seq<char> {
        path_join(self.config_base_view(), "scripts.d"@)
    }

    /// Where running mediated devices appear: `<root>/sys/bus/mdev/devices`.
    pub fn mdev_base(&self) -> (r: String)
        ensures
            r@ == self.mdev_base_view(),
    {
        join(self.rootpath.as_str(), "sys/bus/mdev/devices")
    }

    /// Where definitions are stored: `<root>/etc/mdevctl.d`.
    pub fn config_base(&self) -> (r: String)
        ensures
            r@ == self.config_base_view(),
    {
        join(self.rootpath.as_str(), "etc/mdevctl.d")
    }

    /// Where parent devices appear: `<root>/sys/class/mdev_bus`.
    pub fn parent_base(&self) -> (r: String)
        ensures
            r@ == self.parent_base_view(),
    {
        join(self.rootpath.as_str(), "sys/class/mdev_bus")
    }

    /// The scripts directory under the configuration directory.
    pub fn config_scripts_base(&self) -> (r: String)
        ensures
            r@ == self.config_scripts_base_view(),
    {
        let c = self.config_base();
        join(c.as_str(), "scripts.d")
    }

    /// The packaged callout scripts.
    pub fn callout_dir(&self) -> (r: String)
        ensures
            r@ == path_join(self.scripts_view(), "callouts"@),
    {
        join(self.scriptspath.as_str(), "callouts")
    }

    /// The callout scripts under the configuration directory.
    pub fn old_callout_dir(&self) -> (r: String)
        ensures
            r@ == path_join(self.config_scripts_base_view(), "callouts"@),
    {
        let c = self.config_scripts_base();
        join(c.as_str(), "callouts")
    }

    /// The directories searched for callout scripts, in order.
    pub fn callout_dirs(&self) -> (r: Vec<String>)
        ensures
            r@.len() == 2,
            r@[0]@ == path_join(self.scripts_view(), "callouts"@),
            r@[1]@ == path_join(self.config_scripts_base_view(), "callouts"@),
    {
        let mut v = Vec::new();
        v.push(self.callout_dir());
        v.push(self.old_callout_dir());
        v
    }

    /// The packaged notification scripts.
    pub fn notification_dir(&self) -> (r: String)
        ensures
            r@ == path_join(self.scripts_view(), "notifiers"@),
    {
        join(self.scriptspath.as_str(), "notifiers")
    }

    /// The notification scripts under the configuration directory.
    pub fn old_notification_dir(&self) -> (r: String)
        ensures
            r@ == path_join(self.config_scripts_base_view(), "notifiers"@),
    {
        let c = self.config_scripts_base();
        join(c.as_str(), "notifiers")
    }

    /// The directories whose notification scripts run after an operation, in order.
    pub fn notification_dirs(&self) -> (r: Vec<String>)
        ensures
            r@.len() == 2,
            r@[0]@ == path_join(self.scripts_view(), "notifiers"@),
            r@[1]@ == path_join(self.config_scripts_base_view(), "notifiers"@),
    {
        let mut v = Vec::new();
        v.push(self.notification_dir());
        v.push(self.old_notification_dir());
        v
    }

    /// The directories that must exist for mdevctl to work, in the order they are checked:
    /// the configuration directory, the callout directory and the notification directory.
    pub fn required_dirs(&self) -> (r: Vec<String>)
        ensures
            r@.len() == 3,
            r@[0]@ == self.config_base_view(),
            r@[1]@ == path_join(self.scripts_view(), "callouts"@),
            r@[2]@ == path_join(self.scripts_view(), "notifiers"@),
    {
        let mut v = Vec::new();
        v.push(self.config_base());
        v.push(self.callout_dir());
        v.push(self.notification_dir());
        v
    }

    /// The sysfs directory of a parent device: `<parent_base>/<parent>`.
    pub fn parent_path(&self, parent: &str) -> (r: String)
        ensures
            r@ == path_join(self.parent_base_view(), parent@),
    {
        let b = self.parent_base();
        join(b.as_str(), parent)
    }

}

/// An optional parent, copied.
pub open spec fn owned_parent(p: Option<&String>) -> Option<String> {
    match p {
        Some(s) => Some(*s),
        None => None,
    }
}

fn copy_parent(p: Option<&String>) -> (r: Option<String>)
    ensures
        r == owned_parent(p),
{
    match p {
        Some(s) => Some(s.clone()),
        None => None,
    }
}

/// Takes the first member of the single group.
fn only_member(devs: Groups<MDev>) -> (r: MDev)
    requires
        devs@.len() == 1,
        devs@[0].1.len() > 0,
    ensures
        r == devs@[0].1[0],
{
    let mut entries = devs.into_entries();
    let (_k, mut children) = entries.remove(0);
    children.remove(0)
}

/// Picks the one running device with `uuid` from the devices found (already narrowed to
/// `uuid` and, when given, `parent`): none found, or devices under several parents, or
/// several under one parent, are errors.
pub fn get_active_device(devs: Groups<MDev>, uuid: u128, parent: Option<&String>) -> (r: Result<MDev, DeviceError>)
    requires
        devs@.len() == 1 ==> devs@[0].1.len() > 0,
    ensures
        devs@.len() == 0 ==> r == Err::<MDev, DeviceError>(DeviceError::DeviceNotActive { uuid, given_parent: owned_parent(parent) }),
        devs@.len() > 1 ==> r == Err::<MDev, DeviceError>(DeviceError::MultipleParents { uuid }),
        devs@.len() == 1 && devs@[0].1.len() > 1 ==> (r matches Err(DeviceError::MultipleDefinitions { parent: p, uuid: u })
            && p@ == devs@[0].0 && u == uuid),
        devs@.len() == 1 && devs@[0].1.len() == 1 ==> r == Ok::<MDev, DeviceError>(devs@[0].1[0]),
{
    if devs.len() == 0 {
        return Err(DeviceError::DeviceNotActive { uuid, given_parent: copy_parent(parent) });
    }
    if devs.len() > 1 {
        return Err(DeviceError::MultipleParents { uuid });
    }
    let entries = devs.entries();
    assert(entries@[0].1@ == devs@[0].1);
    if entries[0].1.len() > 1 {
        return Err(DeviceError::MultipleDefinitions { parent: entries[0].0.clone(), uuid });
    }
    Ok(only_member(devs))
}

/// Picks the one defined device with `uuid` from the definitions found (already narrowed to
/// `uuid` and, when given, `parent`): none found, or definitions under several parents, or
/// several under one parent, are errors.
pub fn get_defined_device(devs: Groups<MDev>, uuid: u128, parent: Option<&String>) -> (r: Result<MDev, DeviceError>)
    requires
        devs@.len() == 1 ==> devs@[0].1.len() > 0,
    ensures
        devs@.len() == 0 ==> r == Err::<MDev, DeviceError>(DeviceError::DeviceNotDefined { uuid, given_parent: owned_parent(parent) }),
        devs@.len() > 1 && parent is None ==> r == Err::<MDev, DeviceError>(DeviceError::MultipleDefinitionsNoParent { uuid }),
        devs@.len() > 1 && parent is Some ==> (r matches Err(DeviceError::MultipleDefinitions { parent: p, uuid: u })
            && p@ == parent->0@ && u == uuid),
        devs@.len() == 1 && devs@[0].1.len() > 1 ==> (r matches Err(DeviceError::MultipleDefinitions { parent: p, uuid: u })
            && p@ == devs@[0].0 && u == uuid),
        devs@.len() == 1 && devs@[0].1.len() == 1 ==> r == Ok::<MDev, DeviceError>(devs@[0].1[0]),
{
    if devs.len() == 0 {
        return Err(DeviceError::DeviceNotDefined { uuid, given_parent: copy_parent(parent) });
    }
    if devs.len() > 1 {
        return match parent {
            None => Err(DeviceError::MultipleDefinitionsNoParent { uuid }),
            Some(p) => Err(DeviceError::MultipleDefinitions { parent: p.clone(), uuid }),
        };
    }
    let entries = devs.entries();
    assert(entries@[0].1@ == devs@[0].1);
    if entries[0].1.len() > 1 {
        return Err(DeviceError::MultipleDefinitions { parent: entries[0].0.clone(), uuid });
    }
    Ok(only_member(devs))
}

/// What a directory entry found while scanning for devices is.
#[derive(Clone, Copy, Debug, PartialEq, Eq, Structural)]
pub enum ScanEntry {
    /// Its name is not a UUID: it is skipped with a warning.
    NotDevice,
    /// A device that the UUID filter leaves out.
    Unwanted,
    /// A device to look at.
    Wanted(u128),
}

/// Judges a directory entry named `name` while scanning for devices under the optional UUID
/// filter.
pub fn scan_entry(name: &str, filter: Option<u128>) -> (r: ScanEntry)
    ensures
        crate::ids::uuid_parse(name@) is None ==> r == ScanEntry::NotDevice,
        crate::ids::uuid_parse(name@) matches Some(u) ==> r == (if filter is None || filter == Some(u) {
            ScanEntry::Wanted(u)
        } else {
            ScanEntry::Unwanted
        }),
{
    match crate::ids::parse_uuid(name) {
        None => ScanEntry::NotDevice,
        Some(u) => if uuid_wanted(filter, u) { ScanEntry::Wanted(u) } else { ScanEntry::Unwanted },
    }
}

/// Whether a device found with UUID `found` is wanted under the optional UUID filter.
pub fn uuid_wanted(filter: Option<u128>, found: u128) -> (r: bool)
    ensures
        r == (filter is None || filter == Some(found)),
{
    match filter {
        Some(u) => u == found,
        None => true,
    }
}

/// Whether a device with the (optional) parent `found` is wanted under the optional parent
/// filter.
pub fn parent_wanted(filter: Option<&String>, found: Option<&String>) -> (r: bool)
    ensures
        r == (filter is None || (found is Some && filter->0@ == found->0@)),
{
    match (filter, found) {
        (None, _) => true,
        (Some(f), Some(p)) => crate::text::str_eq(f.as_str(), p.as_str()),
        (Some(_), None) => false,
    }
}

/// Files a running device (listed as `entry`) under the parent of `dev`; a device without a
/// parent is an error.
pub fn add_active_device<T>(devices: &mut Groups<T>, dev: &MDev, entry: T) -> (r: Result<(), DeviceError>)
    requires
        old(devices).wf(),
    ensures
        final(devices).wf(),
        dev.parent is None ==> r == Err::<(), DeviceError>(DeviceError::MissingParent { uuid: dev.uuid })
            && final(devices)@ == old(devices)@,
        dev.parent is Some ==> r is Ok && final(devices)@ == crate::groups::group_push(old(devices)@, dev.parent->0@, entry),
{
    let p = dev.parent()?;
    devices.push(p.clone(), entry);
    Ok(())
}

/// Whether a UUID passes the optional UUID filter.
pub open spec fn uuid_passes(filter: Option<u128>, u: u128) -> bool {
    filter is None || filter == Some(u)
}

/// The entries found under one parent that are kept: those whose device's UUID passes the
/// filter, in order.
pub open spec fn kept_defined<T>(found: Seq<(MDev, T)>, uuid: Option<u128>) -> Seq<T>
    decreases found.len(),
{
    if found.len() == 0 {
        Seq::empty()
    } else {
        let acc = kept_defined(found.drop_last(), uuid);
        if uuid_passes(uuid, found.last().0.uuid) {
            acc.push(found.last().1)
        } else {
            acc
        }
    }
}

/// The definitions found, by parent (in the order the parents were found): each parent that
/// passes the parent filter, with its entries whose device passes the UUID filter; a parent
/// left with none is left out, and a parent found twice keeps its last list.
pub open spec fn collect_defined<T>(scan: Seq<(Seq<char>, Seq<(MDev, T)>)>, uuid: Option<u128>,
    parent: Option<Seq<char>>) -> Seq<(Seq<char>, Seq<T>)>
    decreases scan.len(),
{
    if scan.len() == 0 {
        Seq::empty()
    } else {
        let acc = collect_defined(scan.drop_last(), uuid, parent);
        let kept = kept_defined(scan.last().1, uuid);
        if parent_passes(parent, scan.last().0) && kept.len() > 0 {
            group_set(acc, scan.last().0, kept)
        } else {
            acc
        }
    }
}

/// The content of the entries found under each parent.
pub open spec fn scan_view<T>(scan: Seq<(String, Vec<(MDev, T)>)>) -> Seq<(Seq<char>, Seq<(MDev, T)>)> {
    scan.map_values(|p: (String, Vec<(MDev, T)>)| (p.0@, p.1@))
}

/// Keeps the entries whose device passes the UUID filter.
fn keep_defined<T>(found: Vec<(MDev, T)>, uuid: Option<u128>) -> (r: Vec<T>)
    ensures
        r@ == kept_defined(found@, uuid),
{
    let ghost fv = found@;
    let mut rest = found;
    let mut out: Vec<T> = Vec::new();
    let n = rest.len();
    let mut i: usize = 0;
    assert(fv.take(0) =~= Seq::<(MDev, T)>::empty());
    while i < n
        invariant
            n == fv.len(),
            0 <= i <= n,
            rest@ == fv.skip(i as int),
            out@ == kept_defined(fv.take(i as int), uuid),
        decreases n - i,
    {
        let (d, x) = rest.remove(0);
        assert(fv.skip(i as int)[0] == fv[i as int]);
        assert(rest@ =~= fv.skip(i + 1));
        assert(fv.take(i + 1).drop_last() =~= fv.take(i as int));
        assert(fv.take(i + 1).last() == fv[i as int]);
        if uuid_wanted(uuid, d.uuid) {
            out.push(x);
        }
        i = i + 1;
    }
    assert(fv.take(n as int) =~= fv);
    out
}

/// The definitions found, by parent: `scan` lists each parent directory found with the
/// definitions read from it (each with the entry to file for it); the parent and UUID filters
/// select among them.
pub fn group_defined_devices<T>(scan: Vec<(String, Vec<(MDev, T)>)>, uuid: Option<u128>, parent: Option<&String>)
    -> (r: Groups<T>)
    ensures
        r.wf(),
        r@ == collect_defined(scan_view(scan@), uuid, filter_view(parent)),
{
    let ghost sv = scan_view(scan@);
    let mut input = scan;
    let mut groups: Groups<T> = Groups::new();
    let n = input.len();
    let mut i: usize = 0;
    assert(sv.take(0) =~= Seq::<(Seq<char>, Seq<(MDev, T)>)>::empty());
    while i < n
        invariant
            n == sv.len(),
            0 <= i <= n,
            input@.len() == n - i,
            scan_view(input@) == sv.skip(i as int),
            groups.wf(),
            groups@ == collect_defined(sv.take(i as int), uuid, filter_view(parent)),
        decreases n - i,
    {
        let ghost before_in = input@;
        let (name, found) = input.remove(0);
        assert(scan_view(before_in)[0] == (name@, found@));
        assert(sv.skip(i as int)[0] == sv[i as int]);
        assert(scan_view(input@) =~= sv.skip(i + 1)) by {
            assert forall|j: int| 0 <= j < input@.len() implies scan_view(input@)[j] == sv.skip(i + 1)[j] by {
                assert(scan_view(before_in)[j + 1] == sv.skip(i as int)[j + 1]);
            }
        }
        assert(sv.take(i + 1).drop_last() =~= sv.take(i as int));
        assert(sv.take(i + 1).last() == sv[i as int]);
        let passes = parent_wanted(parent, Some(&name));
        let kept = keep_defined(found, uuid);
        if passes && kept.len() > 0 {
            groups.set(name, kept);
        }
        i = i + 1;
    }
    assert(sv.take(n as int) =~= sv);
    groups
}

/// Whether each definition found is its own entry and names the parent it was found under.
pub open spec fn scan_members_named(scan: Seq<(Seq<char>, Seq<(MDev, MDev)>)>) -> bool {
    forall|i: int, j: int| 0 <= i < scan.len() && 0 <= j < scan[i].1.len() ==> {
        let p = #[trigger] scan[i].1[j];
        p.0 == p.1 && p.0.parent is Some && p.0.parent->0@ == scan[i].0
    }
}

/// Whether a group of found definitions is as the filters ask: not empty, under a parent that
/// passes the parent filter, and holding only definitions of that parent whose UUID passes
/// the UUID filter.
pub open spec fn defined_group_wanted(e: (Seq<char>, Seq<MDev>), uuid: Option<u128>, parent: Option<Seq<char>>) -> bool {
    &&& e.1.len() > 0
    &&& parent_passes(parent, e.0)
    &&& forall|j: int| 0 <= j < e.1.len() ==> uuid_passes(uuid, (#[trigger] e.1[j]).uuid)
        && e.1[j].parent is Some && e.1[j].parent->0@ == e.0
}

/// The entries kept under the parent `k`, when each entry is its own device of that parent,
/// are devices of that parent that pass the UUID filter.
proof fn lemma_kept_defined_wanted(found: Seq<(MDev, MDev)>, uuid: Option<u128>, k: Seq<char>)
    requires
        forall|i: int| 0 <= i < found.len() ==> (#[trigger] found[i]).0 == found[i].1
            && found[i].0.parent is Some && found[i].0.parent->0@ == k,
    ensures
        forall|j: int| 0 <= j < kept_defined(found, uuid).len() ==> uuid_passes(uuid, (#[trigger] kept_defined(found, uuid)[j]).uuid)
            && kept_defined(found, uuid)[j].parent is Some && kept_defined(found, uuid)[j].parent->0@ == k,
    decreases found.len(),
{
    if found.len() > 0 {
        let f2 = found.drop_last();
        assert forall|i: int| 0 <= i < f2.len() implies (#[trigger] f2[i]).0 == f2[i].1
            && f2[i].0.parent is Some && f2[i].0.parent->0@ == k by {
            assert(f2[i] == found[i]);
        }
        lemma_kept_defined_wanted(f2, uuid, k);
        assert(found.last() == found[found.len() - 1]);
    }
}

/// When each entry found is its own definition and names the parent it was found under, every
/// group of found definitions is as the filters ask: not empty, under a parent that passes
/// the parent filter, and holding only definitions of that parent whose UUID passes the UUID
/// filter.
pub proof fn lemma_defined_groups_wanted(scan: Seq<(Seq<char>, Seq<(MDev, MDev)>)>, uuid: Option<u128>,
    parent: Option<Seq<char>>)
    requires
        scan_members_named(scan),
    ensures
        forall|i: int| 0 <= i < collect_defined(scan, uuid, parent).len()
            ==> defined_group_wanted(#[trigger] collect_defined(scan, uuid, parent)[i], uuid, parent),
    decreases scan.len(),
{
    if scan.len() > 0 {
        let s2 = scan.drop_last();
        assert(scan_members_named(s2)) by {
            assert forall|i: int, j: int| 0 <= i < s2.len() && 0 <= j < s2[i].1.len() implies {
                let p = #[trigger] s2[i].1[j];
                p.0 == p.1 && p.0.parent is Some && p.0.parent->0@ == s2[i].0
            } by {
                assert(s2[i] == scan[i]);
            }
        }
        lemma_defined_groups_wanted(s2, uuid, parent);
        let last = scan.last();
        assert(last == scan[scan.len() - 1]);
        assert forall|j: int| 0 <= j < last.1.len() implies (#[trigger] last.1[j]).0 == last.1[j].1
            && last.1[j].0.parent is Some && last.1[j].0.parent->0@ == last.0 by {
            assert(scan[scan.len() - 1].1[j] == last.1[j]);
        }
        lemma_kept_defined_wanted(last.1, uuid, last.0);
        let kept = kept_defined(last.1, uuid);
        if parent_passes(parent, last.0) && kept.len() > 0 {
            let acc = collect_defined(s2, uuid, parent);
            let pred = |e: (Seq<char>, Seq<MDev>)| defined_group_wanted(e, uuid, parent);
            assert(pred((last.0, kept)));
            assert forall|j: int| 0 <= j < acc.len() implies #[trigger] pred(acc[j]) by {
                assert(defined_group_wanted(acc[j], uuid, parent));
            }
            lemma_group_set_all(acc, last.0, kept, pred);
            assert forall|i: int| 0 <= i < group_set(acc, last.0, kept).len()
                implies defined_group_wanted(#[trigger] group_set(acc, last.0, kept)[i], uuid, parent) by {
                assert(pred(group_set(acc, last.0, kept)[i]));
            }
        }
    }
}

/// The definitions found after the stored definitions of the devices `gone` are removed.
pub open spec fn remove_defined<T>(scan: Seq<(Seq<char>, Seq<(MDev, T)>)>, gone: Seq<MDev>)
    -> Seq<(Seq<char>, Seq<(MDev, T)>)> {
    scan.map_values(|e: (Seq<char>, Seq<(MDev, T)>)| (e.0, e.1.filter(|p: (MDev, T)| !gone.contains(p.0))))
}

/// Whether the definitions found are as read from a configuration directory: each parent
/// directory appears once, and each definition is its own entry and names the parent it was
/// found under.
pub open spec fn scan_is_store(scan: Seq<(Seq<char>, Seq<(MDev, MDev)>)>) -> bool {
    &&& forall|i: int, j: int| 0 <= i < j < scan.len() ==> scan[i].0 != scan[j].0
    &&& scan_members_named(scan)
}

proof fn lemma_collect_defined_increasing<T>(scan: Seq<(Seq<char>, Seq<(MDev, T)>)>, uuid: Option<u128>,
    parent: Option<Seq<char>>)
    ensures
        keys_increasing(collect_defined(scan, uuid, parent)),
    decreases scan.len(),
{
    if scan.len() > 0 {
        lemma_collect_defined_increasing(scan.drop_last(), uuid, parent);
        let acc = collect_defined(scan.drop_last(), uuid, parent);
        lemma_group_set_increasing(acc, scan.last().0, kept_defined(scan.last().1, uuid));
    }
}

/// Every entry kept under a parent is the entry of a device that passes the UUID filter, and
/// every such entry is kept.
proof fn lemma_kept_defined_contains(found: Seq<(MDev, MDev)>, uuid: Option<u128>, m: int)
    requires
        0 <= m < found.len(),
        uuid_passes(uuid, found[m].0.uuid),
    ensures
        kept_defined(found, uuid).contains(found[m].1),
    decreases found.len(),
{
    if m < found.len() - 1 {
        assert(found.drop_last()[m] == found[m]);
        lemma_kept_defined_contains(found.drop_last(), uuid, m);
        let k = kept_defined(found.drop_last(), uuid);
        let w = choose|w: int| 0 <= w < k.len() && k[w] == found[m].1;
        if uuid_passes(uuid, found.last().0.uuid) {
            assert(k.push(found.last().1)[w] == found[m].1);
        }
    } else {
        assert(found.last() == found[m]);
        let k = kept_defined(found.drop_last(), uuid);
        assert(k.push(found.last().1)[k.len() as int] == found[m].1);
    }
}

/// Under a parent whose entries contain no device passing the UUID filter, nothing is kept.
proof fn lemma_kept_defined_none<T>(found: Seq<(MDev, T)>, uuid: Option<u128>)
    requires
        forall|m: int| 0 <= m < found.len() ==> !uuid_passes(uuid, (#[trigger] found[m]).0.uuid),
    ensures
        kept_defined(found, uuid).len() == 0,
    decreases found.len(),
{
    if found.len() > 0 {
        let f2 = found.drop_last();
        assert forall|m: int| 0 <= m < f2.len() implies !uuid_passes(uuid, (#[trigger] f2[m]).0.uuid) by {
            assert(f2[m] == found[m]);
        }
        lemma_kept_defined_none(f2, uuid);
        assert(found.last() == found[found.len() - 1]);
    }
}

/// Definitions found under parents that each keep nothing give no groups.
proof fn lemma_collect_defined_empty<T>(scan: Seq<(Seq<char>, Seq<(MDev, T)>)>, uuid: Option<u128>,
    parent: Option<Seq<char>>)
    requires
        forall|i: int| 0 <= i < scan.len() ==> !parent_passes(parent, (#[trigger] scan[i]).0)
            || kept_defined(scan[i].1, uuid).len() == 0,
    ensures
        collect_defined(scan, uuid, parent).len() == 0,
    decreases scan.len(),
{
    if scan.len() > 0 {
        let s2 = scan.drop_last();
        assert forall|i: int| 0 <= i < s2.len() implies !parent_passes(parent, (#[trigger] s2[i]).0)
            || kept_defined(s2[i].1, uuid).len() == 0 by {
            assert(s2[i] == scan[i]);
        }
        lemma_collect_defined_empty(s2, uuid, parent);
        assert(scan.last() == scan[scan.len() - 1]);
    }
}

/// With each parent found once, a parent that passes the filter and keeps some entries has
/// exactly those entries as its group.
proof fn lemma_collect_defined_get<T>(scan: Seq<(Seq<char>, Seq<(MDev, T)>)>, uuid: Option<u128>,
    parent: Option<Seq<char>>, i: int)
    requires
        0 <= i < scan.len(),
        forall|a: int, b: int| 0 <= a < b < scan.len() ==> scan[a].0 != scan[b].0,
        parent_passes(parent, scan[i].0),
        kept_defined(scan[i].1, uuid).len() > 0,
    ensures
        group_get(collect_defined(scan, uuid, parent), scan[i].0) == Some(kept_defined(scan[i].1, uuid)),
    decreases scan.len(),
{
    let s2 = scan.drop_last();
    let acc = collect_defined(s2, uuid, parent);
    lemma_collect_defined_increasing(s2, uuid, parent);
    let last = scan.last();
    assert(last == scan[scan.len() - 1]);
    let kept = kept_defined(last.1, uuid);
    if i == scan.len() - 1 {
        lemma_group_set_get(acc, last.0, kept, last.0);
    } else {
        assert(s2[i] == scan[i]);
        lemma_collect_defined_get(s2, uuid, parent, i);
        assert(scan[i].0 != last.0);
        lemma_group_set_get(acc, last.0, kept, scan[i].0);
    }
}

/// Undefining removes every matching definition: when the definitions of all devices found
/// for a UUID (under the parent, if one is given) are removed from a store of definitions,
/// scanning for that UUID again finds none, and the definitions under parents the filter
/// leaves out stay as they were.
pub proof fn lemma_undefine_removes_all(scan: Seq<(Seq<char>, Seq<(MDev, MDev)>)>, uuid: u128,
    parent: Option<Seq<char>>)
    requires
        scan_is_store(scan),
    ensures
        ({
            let gone = flatten(collect_defined(scan, Some(uuid), parent));
            &&& collect_defined(remove_defined(scan, gone), Some(uuid), parent).len() == 0
            &&& forall|i: int| 0 <= i < scan.len() && !parent_passes(parent, scan[i].0)
                ==> #[trigger] remove_defined(scan, gone)[i] == scan[i]
        }),
{
    let found = collect_defined(scan, Some(uuid), parent);
    let gone = flatten(found);
    let after = remove_defined(scan, gone);
    // every device removed names a parent that passes the filter
    lemma_defined_groups_wanted(scan, Some(uuid), parent);
    let q = |t: MDev| t.parent is Some && parent_passes(parent, t.parent->0@) && t.uuid == uuid;
    assert forall|j: int, m: int| 0 <= j < found.len() && 0 <= m < found[j].1.len() implies #[trigger] q(found[j].1[m]) by {
        assert(defined_group_wanted(found[j], Some(uuid), parent));
    }
    lemma_flatten_all(found, q);
    // under a parent the filter leaves out, nothing is removed
    assert forall|i: int| 0 <= i < scan.len() && !parent_passes(parent, scan[i].0)
        implies #[trigger] after[i] == scan[i] by {
        let s = scan[i].1;
        let keep = |p: (MDev, MDev)| !gone.contains(p.0);
        assert forall|m: int| 0 <= m < s.len() implies #[trigger] keep(s[m]) by {
            if gone.contains(s[m].0) {
                let w = choose|w: int| 0 <= w < gone.len() && gone[w] == s[m].0;
                assert(q(gone[w]));
            }
        }
        lemma_filter_keeps_all(s, keep);
    }
    // under a parent the filter passes, every device of the UUID is removed
    assert forall|i: int| 0 <= i < after.len() implies !parent_passes(parent, (#[trigger] after[i]).0)
        || kept_defined(after[i].1, Some(uuid)).len() == 0 by {
        if parent_passes(parent, scan[i].0) {
            let s = scan[i].1;
            let keep = |p: (MDev, MDev)| !gone.contains(p.0);
            let rest = s.filter(keep);
            assert forall|m: int| 0 <= m < rest.len() implies !uuid_passes(Some(uuid), (#[trigger] rest[m]).0.uuid) by {
                s.lemma_filter_pred(keep, m);
                if rest[m].0.uuid == uuid {
                    assert(rest.contains(rest[m]));
                    s.lemma_filter_contains_rev(keep, rest[m]);
                    let w = choose|w: int| 0 <= w < s.len() && s[w] == rest[m];
                    lemma_kept_defined_contains(s, Some(uuid), w);
                    let kept = kept_defined(s, Some(uuid));
                    lemma_collect_defined_get(scan, Some(uuid), parent, i);
                    lemma_group_get_entry(found, scan[i].0);
                    let lb = crate::groups::lower_bound(found, scan[i].0) as int;
                    let v = choose|v: int| 0 <= v < kept.len() && kept[v] == s[w].1;
                    assert(found[lb].1 == kept);
                    lemma_flatten_contains(found, lb, v);
                    assert(s[w].0 == s[w].1);
                }
            }
            lemma_kept_defined_none(rest, Some(uuid));
        }
    }
    lemma_collect_defined_empty(after, Some(uuid), parent);
}

/// Filtering by a property that every element has keeps them all.
proof fn lemma_filter_keeps_all<A>(s: Seq<A>, keep: spec_fn(A) -> bool)
    requires
        forall|m: int| 0 <= m < s.len() ==> #[trigger] keep(s[m]),
    ensures
        s.filter(keep) == s,
    decreases s.len(),
{
    reveal_with_fuel(Seq::filter, 1);
    if s.len() > 0 {
        let s2 = s.drop_last();
        assert forall|m: int| 0 <= m < s2.len() implies #[trigger] keep(s2[m]) by {
            assert(s2[m] == s[m]);
        }
        lemma_filter_keeps_all(s2, keep);
        assert(keep(s[s.len() - 1]));
        assert(s2.push(s.last()) =~= s);
    }
}

/// Whether a running device passes the filters: its UUID passes the UUID filter, and under a
/// parent filter it has that parent.
pub open spec fn active_wanted(d: MDev, uuid: Option<u128>, parent: Option<Seq<char>>) -> bool {
    &&& uuid_passes(uuid, d.uuid)
    &&& match parent {
        None => true,
        Some(p) => d.parent is Some && d.parent->0@ == p,
    }
}

/// The running devices found (each with the entry to file for it), by parent: the entries of
/// the wanted devices that have a parent, in the order found.
pub open spec fn collect_active<T>(found: Seq<(MDev, T)>, uuid: Option<u128>, parent: Option<Seq<char>>)
    -> Seq<(Seq<char>, Seq<T>)>
    decreases found.len(),
{
    if found.len() == 0 {
        Seq::empty()
    } else {
        let acc = collect_active(found.drop_last(), uuid, parent);
        let d = found.last().0;
        if active_wanted(d, uuid, parent) && d.parent is Some {
            group_push(acc, d.parent->0@, found.last().1)
        } else {
            acc
        }
    }
}

/// The UUID of the first wanted running device found without a parent, if any.
pub open spec fn first_parentless<T>(found: Seq<(MDev, T)>, uuid: Option<u128>, parent: Option<Seq<char>>)
    -> Option<u128>
    decreases found.len(),
{
    if found.len() == 0 {
        None
    } else {
        match first_parentless(found.drop_last(), uuid, parent) {
            Some(u) => Some(u),
            None => {
                let d = found.last().0;
                if active_wanted(d, uuid, parent) && d.parent is None {
                    Some(d.uuid)
                } else {
                    None
                }
            },
        }
    }
}

/// The running devices found, by parent: `found` lists the devices read from sysfs in the
/// order found, each with the entry to file for it; the UUID and parent filters select among
/// them. A wanted device without a parent is an error.
pub fn group_active_devices<T>(found: Vec<(MDev, T)>, uuid: Option<u128>, parent: Option<&String>)
    -> (r: Result<Groups<T>, DeviceError>)
    ensures
        first_parentless(found@, uuid, filter_view(parent)) matches Some(u)
            ==> r == Err::<Groups<T>, DeviceError>(DeviceError::MissingParent { uuid: u }),
        first_parentless(found@, uuid, filter_view(parent)) is None
            ==> (r matches Ok(g) && g.wf() && g@ == collect_active(found@, uuid, filter_view(parent))),
{
    let ghost fv = found@;
    let ghost pf = filter_view(parent);
    let mut rest = found;
    let mut groups: Groups<T> = Groups::new();
    let n = rest.len();
    let mut i: usize = 0;
    assert(fv.take(0) =~= Seq::<(MDev, T)>::empty());
    while i < n
        invariant
            n == fv.len(),
            0 <= i <= n,
            rest@ == fv.skip(i as int),
            fv == found@,
            pf == filter_view(parent),
            first_parentless(fv.take(i as int), uuid, pf) is None,
            groups.wf(),
            groups@ == collect_active(fv.take(i as int), uuid, pf),
        decreases n - i,
    {
        let (d, x) = rest.remove(0);
        assert(fv.skip(i as int)[0] == fv[i as int]);
        assert(rest@ =~= fv.skip(i + 1));
        assert(fv.take(i + 1).drop_last() =~= fv.take(i as int));
        assert(fv.take(i + 1).last() == fv[i as int]);
        if uuid_wanted(uuid, d.uuid) && parent_wanted(parent, d.parent.as_ref()) {
            if d.parent.is_none() {
                proof {
                    assert(fv[i as int].0 == d);
                    assert(active_wanted(d, uuid, pf));
                    assert(first_parentless(fv.take(i + 1), uuid, pf) == Some(d.uuid));
                    lemma_first_parentless_prefix(fv, uuid, pf, i + 1);
                }
                return Err(DeviceError::MissingParent { uuid: d.uuid });
            }
            add_active_device(&mut groups, &d, x)?;
        }
        i = i + 1;
    }
    assert(fv.take(n as int) =~= fv);
    Ok(groups)
}

/// Once a prefix of what was found holds a parentless wanted device, the first such device
/// found overall is the one found in that prefix.
proof fn lemma_first_parentless_prefix<T>(found: Seq<(MDev, T)>, uuid: Option<u128>, parent: Option<Seq<char>>, i: int)
    requires
        0 <= i <= found.len(),
        first_parentless(found.take(i), uuid, parent) is Some,
    ensures
        first_parentless(found, uuid, parent) == first_parentless(found.take(i), uuid, parent),
    decreases found.len() - i,
{
    if i < found.len() {
        assert(found.take(i + 1).drop_last() =~= found.take(i));
        lemma_first_parentless_prefix(found, uuid, parent, i + 1);
    } else {
        assert(found.take(i) =~= found);
    }
}

/// Whether a group of running devices is as the filters ask: not empty, under a parent that
/// passes the parent filter, and holding only wanted devices that have that parent.
pub open spec fn active_group_wanted(e: (Seq<char>, Seq<MDev>), uuid: Option<u128>, parent: Option<Seq<char>>) -> bool {
    &&& e.1.len() > 0
    &&& parent_passes(parent, e.0)
    &&& forall|j: int| 0 <= j < e.1.len() ==> active_wanted(#[trigger] e.1[j], uuid, parent)
        && e.1[j].parent is Some && e.1[j].parent->0@ == e.0
}

/// When each entry found is its own device, every group of running devices is as the filters
/// ask: not empty, under a parent that passes the parent filter, and holding only wanted
/// devices that have that parent.
pub proof fn lemma_active_groups_wanted(found: Seq<(MDev, MDev)>, uuid: Option<u128>, parent: Option<Seq<char>>)
    requires
        forall|i: int| 0 <= i < found.len() ==> (#[trigger] found[i]).0 == found[i].1,
    ensures
        forall|i: int| 0 <= i < collect_active(found, uuid, parent).len()
            ==> active_group_wanted(#[trigger] collect_active(found, uuid, parent)[i], uuid, parent),
    decreases found.len(),
{
    if found.len() > 0 {
        let f2 = found.drop_last();
        assert forall|i: int| 0 <= i < f2.len() implies (#[trigger] f2[i]).0 == f2[i].1 by {
            assert(f2[i] == found[i]);
        }
        lemma_active_groups_wanted(f2, uuid, parent);
        let acc = collect_active(f2, uuid, parent);
        let d = found.last().0;
        assert(found.last() == found[found.len() - 1]);
        if active_wanted(d, uuid, parent) && d.parent is Some {
            let k = d.parent->0@;
            let pred = |e: (Seq<char>, Seq<MDev>)| active_group_wanted(e, uuid, parent);
            assert forall|j: int| 0 <= j < acc.len() implies #[trigger] pred(acc[j]) by {
                assert(active_group_wanted(acc[j], uuid, parent));
            }
            lemma_group_get_entry(acc, k);
            let v = match group_get(acc, k) {
                Some(old) => {
                    assert(pred(acc[crate::groups::lower_bound(acc, k) as int]));
                    old.push(d)
                },
                None => seq![d],
            };
            assert(parent_passes(parent, k));
            assert forall|j: int| 0 <= j < v.len() implies active_wanted(#[trigger] v[j], uuid, parent)
                && v[j].parent is Some && v[j].parent->0@ == k by {
                match group_get(acc, k) {
                    Some(old) => {
                        if j < old.len() {
                            assert(v[j] == old[j]);
                        }
                    },
                    None => {},
                }
            }
            assert(pred((k, v)));
            lemma_group_set_all(acc, k, v, pred);
            assert(group_push(acc, k, d) == group_set(acc, k, v));
            assert forall|i: int| 0 <= i < group_push(acc, k, d).len()
                implies active_group_wanted(#[trigger] group_push(acc, k, d)[i], uuid, parent) by {
                assert(pred(group_set(acc, k, v)[i]));
            }
        }
    }
}

impl MDev {
    /// The sysfs directory of the device when it runs: `<mdev_base>/<uuid>`.
    pub fn path(&self, env: &DefaultEnvironment) -> (r: String)
        ensures
            r@ == path_join(env.mdev_base_view(), hyphenated(self.uuid)),
    {
        let b = env.mdev_base();
        let u = uuid_hyphenated(self.uuid);
        join(b.as_str(), u.as_str())
    }

    /// Where the device's definition is stored, `<config_base>/<parent>/<uuid>`, when it has a
    /// parent.
    pub fn persist_path(&self, env: &DefaultEnvironment) -> (r: Option<String>)
        ensures
            r is Some <==> self.parent is Some,
            r matches Some(p) ==> p@ == path_join(path_join(env.config_base_view(), self.parent->0@), hyphenated(self.uuid)),
    {
        match &self.parent {
            Some(parent) => {
                let c = env.config_base();
                let d = join(c.as_str(), parent.as_str());
                let u = uuid_hyphenated(self.uuid);
                Some(join(d.as_str(), u.as_str()))
            },
            None => None,
        }
    }

    /// The stored definition that `undefine` removes; a device without a parent has none.
    pub fn undefine_path(&self, env: &DefaultEnvironment) -> (r: Result<String, DeviceError>)
        ensures
            self.parent is None ==> r == Err::<String, DeviceError>(DeviceError::UndefineUnknownPath { uuid: self.uuid }),
            self.parent is Some ==> (r matches Ok(p)
                && p@ == path_join(path_join(env.config_base_view(), self.parent->0@), hyphenated(self.uuid))),
    {
        match self.persist_path(env) {
            Some(p) => Ok(p),
            None => Err(DeviceError::UndefineUnknownPath { uuid: self.uuid }),
        }
    }
}

/// Whether a parent name passes the optional parent filter.
pub open spec fn parent_passes(filter: Option<Seq<char>>, name: Seq<char>) -> bool {
    match filter {
        Some(f) => f == name,
        None => true,
    }
}

/// The optional filter's content.
pub open spec fn filter_view(filter: Option<&String>) -> Option<Seq<char>> {
    match filter {
        Some(f) => Some(f@),
        None => None,
    }
}

/// The types found under each parent (in the order the parents were found), narrowed to the
/// parent filter; a parent found twice keeps its last list.
pub open spec fn collect_types(scan: Seq<(Seq<char>, Seq<MDevType>)>, filter: Option<Seq<char>>) -> Seq<(Seq<char>, Seq<MDevType>)>
    decreases scan.len(),
{
    if scan.len() == 0 {
        Seq::empty()
    } else {
        let acc = collect_types(scan.drop_last(), filter);
        if parent_passes(filter, scan.last().0) {
            group_set(acc, scan.last().0, scan.last().1)
        } else {
            acc
        }
    }
}

/// The supported types by parent: each parent found that passes the filter, with its types
/// sorted by name.
pub fn get_supported_types(scan: Vec<(String, Vec<MDevType>)>, parent: Option<&String>) -> (r: Groups<MDevType>)
    ensures
        r.wf(),
        r@ == sort_groups(collect_types(groups_view(scan@), filter_view(parent))),
{
    let ghost sv = groups_view(scan@);
    let mut input = scan;
    let mut types: Groups<MDevType> = Groups::new();
    let n = input.len();
    let mut i: usize = 0;
    assert(sv.take(0) =~= Seq::<(Seq<char>, Seq<MDevType>)>::empty());
    while i < n
        invariant
            n == sv.len(),
            0 <= i <= n,
            input@.len() == n - i,
            groups_view(input@) == sv.skip(i as int),
            types.wf(),
            types@ == collect_types(sv.take(i as int), filter_view(parent)),
        decreases n - i,
    {
        let ghost before_in = input@;
        let (name, members) = input.remove(0);
        assert(groups_view(before_in)[0] == (name@, members@));
        assert(sv.skip(i as int)[0] == sv[i as int]);
        assert(groups_view(input@) =~= sv.skip(i + 1)) by {
            assert forall|j: int| 0 <= j < input@.len() implies groups_view(input@)[j] == sv.skip(i + 1)[j] by {
                assert(groups_view(before_in)[j + 1] == sv.skip(i as int)[j + 1]);
            }
        }
        assert(sv.take(i + 1).drop_last() =~= sv.take(i as int));
        let passes = match parent {
            Some(p) => crate::text::str_eq(p.as_str(), name.as_str()),
            None => true,
        };
        if passes {
            types.set(name, members);
        }
        i = i + 1;
    }
    assert(sv.take(n as int) =~= sv);
    types.sort_members()
}

} // verus!
