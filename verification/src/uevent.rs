//! Kernel device events and the input device list: the fields the daemon
//! reads in them, and what it decides from them.

use vstd::prelude::*;

verus! {

/// The fields of a kernel device event that the daemon reads: the last
/// value given to each of `ACTION`, `DEVPATH` and `DEVNAME`.
#[derive(Debug, PartialEq, Eq)]
pub struct Uevent {
    pub action: Option<Vec<u8>>,
    pub devpath: Option<Vec<u8>>,
    pub devname: Option<Vec<u8>>,
}

/// Model of a `Uevent`.
pub struct UeventView {
    pub action: Option<Seq<u8>>,
    pub devpath: Option<Seq<u8>>,
    pub devname: Option<Seq<u8>>,
}

/// A byte vector option, taken by its view.
pub open spec fn bytes_view(o: Option<Vec<u8>>) -> Option<Seq<u8>> {
    match o {
        Some(v) => Some(v@),
        None => None,
    }
}

impl View for Uevent {
    type V = UeventView;

    open spec fn view(&self) -> UeventView {
        UeventView { action: bytes_view(self.action), devpath: bytes_view(self.devpath), devname: bytes_view(self.devname) }
    }
}

/// The byte that ends each line of a kernel device event.
pub const NUL: u8 = 0u8;

/// The byte between a field's name and its value.
pub const EQUALS: u8 = 61u8;

/// `ACTION`.
pub open spec fn action_key() -> Seq<u8> {
    seq![65u8, 67u8, 84u8, 73u8, 79u8, 78u8]
}

/// `DEVPATH`.
pub open spec fn devpath_key() -> Seq<u8> {
    seq![68u8, 69u8, 86u8, 80u8, 65u8, 84u8, 72u8]
}

/// `DEVNAME`.
pub open spec fn devname_key() -> Seq<u8> {
    seq![68u8, 69u8, 86u8, 78u8, 65u8, 77u8, 69u8]
}

/// `add`.
pub open spec fn add_action() -> Seq<u8> {
    seq![97u8, 100u8, 100u8]
}

/// `/dev`.
pub open spec fn dev_dir() -> Seq<u8> {
    seq![47u8, 100u8, 101u8, 118u8]
}

/// `/dev/input/event`.
pub open spec fn event_node_prefix() -> Seq<u8> {
    seq![47u8, 100u8, 101u8, 118u8, 47u8, 105u8, 110u8, 112u8, 117u8, 116u8, 47u8, 101u8, 118u8, 101u8, 110u8, 116u8]
}

/// The position of the first `b` in `s`, if any.
pub open spec fn first_index(s: Seq<u8>, b: u8) -> Option<int>
    decreases s.len(),
{
    if s.len() == 0 {
        None
    } else if s[0] == b {
        Some(0)
    } else {
        match first_index(s.drop_first(), b) {
            Some(i) => Some(i + 1),
            None => None,
        }
    }
}

/// `first_index` gives the position of the first `b`.
pub proof fn lemma_first_index(s: Seq<u8>, b: u8)
    ensures
        match first_index(s, b) {
            Some(i) => 0 <= i < s.len() && s[i] == b && forall|j: int| 0 <= j < i ==> s[j] != b,
            None => forall|j: int| 0 <= j < s.len() ==> s[j] != b,
        },
    decreases s.len(),
{
    if s.len() > 0 {
        lemma_first_index(s.drop_first(), b);
        assert forall|j: int| 1 <= j < s.len() implies s[j] == s.drop_first()[j - 1] by {}
    }
}

/// The fields after the line `line`: a line `KEY=value` whose key is read
/// sets that field to the value.
pub open spec fn take_line(u: UeventView, line: Seq<u8>) -> UeventView {
    match first_index(line, EQUALS) {
        None => u,
        Some(i) => {
            let key = line.take(i);
            let value = line.skip(i + 1);
            if key == action_key() {
                UeventView { action: Some(value), ..u }
            } else if key == devpath_key() {
                UeventView { devpath: Some(value), ..u }
            } else if key == devname_key() {
                UeventView { devname: Some(value), ..u }
            } else {
                u
            }
        },
    }
}

/// The fields read from the complete lines of `msg`, and its last line so far.
pub open spec fn scan(msg: Seq<u8>) -> (UeventView, Seq<u8>)
    decreases msg.len(),
{
    if msg.len() == 0 {
        (UeventView { action: None, devpath: None, devname: None }, Seq::empty())
    } else {
        let prev = scan(msg.drop_last());
        if msg.last() == NUL {
            (take_line(prev.0, prev.1), Seq::empty())
        } else {
            (prev.0, prev.1.push(msg.last()))
        }
    }
}

/// The fields of the kernel device event `msg`: its lines end with `NUL`
/// (the last one may lack it).
pub open spec fn uevent_fields(msg: Seq<u8>) -> UeventView {
    take_line(scan(msg).0, scan(msg).1)
}

/// Path `rel` taken from the directory `base` (which does not end with
/// `/`): `rel` itself if it is absolute, else `base/rel`.
pub open spec fn join(base: Seq<u8>, rel: Seq<u8>) -> Seq<u8> {
    if rel.len() > 0 && rel[0] == 47u8 { rel } else { base.push(47u8) + rel }
}

/// The device node named by a `DEVNAME` value.
pub open spec fn devnode_of(devname: Seq<u8>) -> Seq<u8> {
    join(dev_dir(), devname)
}

/// A kernel device event announces a new input event device: its action is
/// `add` and its device node lies under `/dev/input/event`.
pub open spec fn announces_input(u: UeventView) -> bool {
    &&& u.action == Some(add_action())
    &&& u.devname is Some
    &&& devnode_of(u.devname->Some_0).len() >= event_node_prefix().len()
    &&& devnode_of(u.devname->Some_0).take(event_node_prefix().len() as int) == event_node_prefix()
}

/// The bytes `s[start..end]`.
fn slice_to_vec(s: &[u8], start: usize, end: usize) -> (r: Vec<u8>)
    requires
        start <= end <= s@.len(),
    ensures
        r@ == s@.subrange(start as int, end as int),
{
    let mut r: Vec<u8> = Vec::new();
    let mut i: usize = start;
    while i < end
        invariant
            start <= i <= end,
            end <= s@.len(),
            r@ == s@.subrange(start as int, i as int),
        decreases end - i,
    {
        r.push(s[i]);
        assert(s@.subrange(start as int, i + 1) =~= s@.subrange(start as int, i as int).push(s@[i as int]));
        i = i + 1;
    }
    r
}

/// Whether `s[start..end]` is `key`.
fn bytes_equal(s: &[u8], start: usize, end: usize, key: &[u8]) -> (r: bool)
    requires
        start <= end <= s@.len(),
    ensures
        r == (s@.subrange(start as int, end as int) == key@),
{
    if end - start != key.len() {
        return false;
    }
    let mut i: usize = 0;
    while i < key.len()
        invariant
            i <= key@.len(),
            end - start == key@.len(),
            start <= end <= s@.len(),
            forall|j: int| 0 <= j < i ==> s@[start + j] == key@[j],
        decreases key.len() - i,
    {
        if s[start + i] != key[i] {
            assert(s@.subrange(start as int, end as int)[i as int] != key@[i as int]);
            return false;
        }
        i = i + 1;
    }
    assert(s@.subrange(start as int, end as int) =~= key@);
    true
}

/// The position of the first `b` in `s[start..end]`, from `start`.
fn find_byte(s: &[u8], start: usize, end: usize, b: u8) -> (r: Option<usize>)
    requires
        start <= end <= s@.len(),
    ensures
        match first_index(s@.subrange(start as int, end as int), b) {
            Some(i) => r == Some((start + i) as usize),
            None => r is None,
        },
{
    let mut i: usize = end;
    let mut found: Option<usize> = None;
    while i > start
        invariant
            start <= i <= end,
            end <= s@.len(),
            match first_index(s@.subrange(i as int, end as int), b) {
                Some(k) => found == Some((i + k) as usize),
                None => found is None,
            },
        decreases i - start,
    {
        i = i - 1;
        assert(s@.subrange(i as int, end as int).drop_first() =~= s@.subrange(i + 1, end as int));
        if s[i] == b {
            found = Some(i);
        }
    }
    found
}

/// Takes the line `msg[start..end]` into the fields.
fn take_line_bytes(u: &mut Uevent, msg: &[u8], start: usize, end: usize)
    requires
        start <= end <= msg@.len(),
    ensures
        final(u)@ == take_line(old(u)@, msg@.subrange(start as int, end as int)),
{
    let ghost line = msg@.subrange(start as int, end as int);
    proof {
        lemma_first_index(line, EQUALS);
    }
    match find_byte(msg, start, end, EQUALS) {
        None => {},
        Some(i) => {
            assert(line.take(i - start) =~= msg@.subrange(start as int, i as int));
            assert(line.skip(i - start + 1) =~= msg@.subrange(i + 1, end as int));
            let action: Vec<u8> = vec![65u8, 67u8, 84u8, 73u8, 79u8, 78u8];
            let devpath: Vec<u8> = vec![68u8, 69u8, 86u8, 80u8, 65u8, 84u8, 72u8];
            let devname: Vec<u8> = vec![68u8, 69u8, 86u8, 78u8, 65u8, 77u8, 69u8];
            assert(action@ =~= action_key());
            assert(devpath@ =~= devpath_key());
            assert(devname@ =~= devname_key());
            if bytes_equal(msg, start, i, action.as_slice()) {
                u.action = Some(slice_to_vec(msg, i + 1, end));
            } else if bytes_equal(msg, start, i, devpath.as_slice()) {
                u.devpath = Some(slice_to_vec(msg, i + 1, end));
            } else if bytes_equal(msg, start, i, devname.as_slice()) {
                u.devname = Some(slice_to_vec(msg, i + 1, end));
            }
        },
    }
}

/// The fields of the kernel device event `msg`.
pub fn parse(msg: &[u8]) -> (r: Uevent)
    ensures
        r@ == uevent_fields(msg@),
{
    let mut u = Uevent { action: None, devpath: None, devname: None };
    let mut start: usize = 0;
    let mut i: usize = 0;
    assert(msg@.take(0) =~= Seq::<u8>::empty());
    assert(msg@.subrange(0, 0) =~= Seq::<u8>::empty());
    while i < msg.len()
        invariant
            start <= i <= msg@.len(),
            scan(msg@.take(i as int)) == (u@, msg@.subrange(start as int, i as int)),
        decreases msg.len() - i,
    {
        assert(msg@.take(i + 1).drop_last() =~= msg@.take(i as int));
        assert(msg@.take(i + 1).last() == msg@[i as int]);
        if msg[i] == NUL {
            take_line_bytes(&mut u, msg, start, i);
            start = i + 1;
            assert(msg@.subrange(start as int, i + 1) =~= Seq::<u8>::empty());
        } else {
            assert(msg@.subrange(start as int, i + 1) =~= msg@.subrange(start as int, i as int).push(msg@[i as int]));
        }
        i = i + 1;
    }
    assert(msg@.take(msg@.len() as int) =~= msg@);
    take_line_bytes(&mut u, msg, start, msg.len());
    u
}

/// The path `rel` taken from the directory `base`.
pub fn join_path(base: &[u8], rel: &[u8]) -> (r: Vec<u8>)
    ensures
        r@ == join(base@, rel@),
{
    if rel.len() > 0 && rel[0] == 47u8 {
        slice_to_vec(rel, 0, rel.len())
    } else {
        let mut r = slice_to_vec(base, 0, base.len());
        r.push(47u8);
        let mut i: usize = 0;
        let ghost start = r@;
        while i < rel.len()
            invariant
                i <= rel@.len(),
                r@ == start + rel@.take(i as int),
            decreases rel.len() - i,
        {
            r.push(rel[i]);
            assert(rel@.take(i + 1) =~= rel@.take(i as int).push(rel@[i as int]));
            i = i + 1;
        }
        assert(rel@.take(rel@.len() as int) =~= rel@);
        assert(base@.subrange(0, base@.len() as int) =~= base@);
        r
    }
}

/// `/sys`.
pub open spec fn sys_dir() -> Seq<u8> {
    seq![47u8, 115u8, 121u8, 115u8]
}

/// The path `p` without its trailing separators and trailing `.`
/// components, a lone root kept: where the components of `p` end.
pub open spec fn trim_end(p: Seq<u8>) -> Seq<u8>
    decreases p.len(),
{
    if p.len() > 1 && p.last() == 47u8 {
        trim_end(p.drop_last())
    } else if p.len() > 1 && p.last() == 46u8 && p[p.len() - 2] == 47u8 {
        trim_end(p.drop_last())
    } else {
        p
    }
}

/// The position of the last `b` in `s`, if any.
pub open spec fn last_index(s: Seq<u8>, b: u8) -> Option<int>
    decreases s.len(),
{
    if s.len() == 0 {
        None
    } else if s.last() == b {
        Some(s.len() - 1)
    } else {
        last_index(s.drop_last(), b)
    }
}

/// `last_index` gives the position of a `b`, within `s`.
pub proof fn lemma_last_index(s: Seq<u8>, b: u8)
    ensures
        last_index(s, b) matches Some(i) ==> 0 <= i < s.len() && s[i] == b,
    decreases s.len(),
{
    if s.len() > 0 && s.last() != b {
        lemma_last_index(s.drop_last(), b);
    }
}

/// The parent of the absolute path `p`, as std's `Path::parent` gives it:
/// `p` without its last component and the separators before it; none for
/// the root itself.
pub open spec fn parent(p: Seq<u8>) -> Option<Seq<u8>> {
    let t = trim_end(p);
    if t.len() <= 1 {
        None
    } else {
        match last_index(t, 47u8) {
            None => None,
            Some(i) => if i == 0 { Some(seq![47u8]) } else { Some(trim_end(t.take(i))) },
        }
    }
}

/// The sysfs path of the device of a kernel event whose `DEVPATH` is
/// `devpath`: `/sys` joined with `devpath` past its first character, then
/// its parent. None where that first character cannot be cut off (an empty
/// value, or a byte that does not start a character) or where the path has
/// no parent.
pub open spec fn sysfs_of(devpath: Seq<u8>) -> Option<Seq<u8>> {
    if devpath.len() == 0 || devpath[0] >= 128u8 {
        None
    } else {
        parent(join(sys_dir(), devpath.skip(1)))
    }
}

/// What a kernel device event asks of the daemon: register the input device
/// of sysfs path `syspath` and node `devnode`. The sysfs path is missing
/// where the event gives no `DEVPATH`, or one whose sysfs path cannot be
/// derived (`sysfs_of`).
#[derive(Debug, PartialEq, Eq)]
pub struct Registration {
    pub syspath: Option<Vec<u8>>,
    pub devnode: Vec<u8>,
}

/// Cuts off the trailing separators and trailing `.` components of `p`.
fn trim_end_bytes(p: &mut Vec<u8>)
    ensures
        final(p)@ == trim_end(old(p)@),
{
    let ghost start = p@;
    loop
        invariant
            start == old(p)@,
            trim_end(p@) == trim_end(start),
        decreases p@.len(),
    {
        let n = p.len();
        if n > 1 && (p[n - 1] == 47u8 || (p[n - 1] == 46u8 && p[n - 2] == 47u8)) {
            let ghost before = p@;
            p.pop();
            assert(p@ =~= before.drop_last());
            assert(trim_end(before) == trim_end(before.drop_last()));
        } else {
            assert(trim_end(p@) == p@);
            return;
        }
    }
}

/// The position of the last `b` in `s`.
fn find_last(s: &Vec<u8>, b: u8) -> (r: Option<usize>)
    ensures
        match last_index(s@, b) {
            Some(i) => r == Some(i as usize),
            None => r is None,
        },
{
    let mut i: usize = s.len();
    assert(s@.take(s@.len() as int) =~= s@);
    while i > 0
        invariant
            i <= s@.len(),
            last_index(s@, b) == last_index(s@.take(i as int), b),
        decreases i,
    {
        assert(s@.take(i as int).drop_last() =~= s@.take(i - 1));
        assert(s@.take(i as int).last() == s@[i - 1]);
        if s[i - 1] == b {
            return Some(i - 1);
        }
        i = i - 1;
    }
    None
}

/// The sysfs path of the device whose `DEVPATH` is `devpath` (`sysfs_of`).
pub fn sysfs_path(devpath: &[u8]) -> (r: Option<Vec<u8>>)
    ensures
        bytes_view(r) == sysfs_of(devpath@),
{
    if devpath.len() == 0 || devpath[0] >= 128u8 {
        return None;
    }
    let sys: Vec<u8> = vec![47u8, 115u8, 121u8, 115u8];
    assert(sys@ =~= sys_dir());
    let rest = slice_to_vec(devpath, 1, devpath.len());
    assert(rest@ =~= devpath@.skip(1));
    let mut path = join_path(sys.as_slice(), rest.as_slice());
    proof {
        assert(path@.len() > 0 && path@[0] == 47u8) by {
            if !(rest@.len() > 0 && rest@[0] == 47u8) {
                assert(path@[0] == sys@[0]);
            }
        }
    }
    let ghost joined = path@;
    trim_end_bytes(&mut path);
    if path.len() <= 1 {
        return None;
    }
    proof {
        lemma_last_index(path@, 47u8);
    }
    match find_last(&path, 47u8) {
        None => None,
        Some(i) => {
            if i == 0 {
                let root: Vec<u8> = vec![47u8];
                assert(root@ =~= seq![47u8]);
                Some(root)
            } else {
                let mut head = slice_to_vec(path.as_slice(), 0, i);
                assert(head@ =~= path@.take(i as int));
                trim_end_bytes(&mut head);
                Some(head)
            }
        },
    }
}

/// What a kernel device event asks: for a new input event device, its sysfs
/// path, where it can be derived, and its device node.
pub fn registration(u: &Uevent) -> (r: Option<Registration>)
    ensures
        r is Some <==> announces_input(u@),
        r matches Some(reg) ==> {
            &&& bytes_view(reg.syspath) == match u@.devpath {
                Some(d) => sysfs_of(d),
                None => None,
            }
            &&& reg.devnode@ == devnode_of(u@.devname->Some_0)
        },
{
    let add: Vec<u8> = vec![97u8, 100u8, 100u8];
    assert(add@ =~= add_action());
    let is_add = match &u.action {
        Some(action) => bytes_equal(action.as_slice(), 0, action.len(), add.as_slice()),
        None => false,
    };
    proof {
        if u.action is Some {
            let action = u.action->Some_0;
            assert(action@.subrange(0, action@.len() as int) =~= action@);
        }
    }
    if !is_add {
        return None;
    }
    let devname = match &u.devname {
        Some(devname) => devname,
        None => return None,
    };
    let dev: Vec<u8> = vec![47u8, 100u8, 101u8, 118u8];
    assert(dev@ =~= dev_dir());
    let devnode = join_path(dev.as_slice(), devname.as_slice());
    let prefix: Vec<u8> = vec![47u8, 100u8, 101u8, 118u8, 47u8, 105u8, 110u8, 112u8, 117u8, 116u8, 47u8, 101u8, 118u8, 101u8, 110u8, 116u8];
    assert(prefix@ =~= event_node_prefix());
    if devnode.len() < prefix.len() {
        return None;
    }
    if !bytes_equal(devnode.as_slice(), 0, prefix.len(), prefix.as_slice()) {
        assert(devnode@.subrange(0, prefix@.len() as int) =~= devnode@.take(prefix@.len() as int));
        return None;
    }
    assert(devnode@.subrange(0, prefix@.len() as int) =~= devnode@.take(prefix@.len() as int));
    let syspath = match &u.devpath {
        Some(p) => sysfs_path(p.as_slice()),
        None => None,
    };
    Some(Registration { syspath, devnode })
}

/// `S: `, the start of a line of the input device list that gives a
/// device's sysfs path.
pub open spec fn sysfs_prefix() -> Seq<u8> {
    seq![83u8, 58u8, 32u8]
}

/// `H: `, the start of a line that gives a device's handlers.
pub open spec fn handlers_prefix() -> Seq<u8> {
    seq![72u8, 58u8, 32u8]
}

/// `B: KEY=`, the start of the line that ends a device with keys.
pub open spec fn keys_prefix() -> Seq<u8> {
    seq![66u8, 58u8, 32u8, 75u8, 69u8, 89u8, 61u8]
}

/// `event`.
pub open spec fn event_word() -> Seq<u8> {
    seq![101u8, 118u8, 101u8, 110u8, 116u8]
}

/// `s` starts with `p`.
pub open spec fn starts_with(s: Seq<u8>, p: Seq<u8>) -> bool {
    s.len() >= p.len() && s.take(p.len() as int) == p
}

/// `s` holds `p`.
pub open spec fn holds(s: Seq<u8>, p: Seq<u8>) -> bool {
    exists|i: int| 0 <= i && i + p.len() <= s.len() && #[trigger] s.subrange(i, i + p.len()) == p
}

/// The last word of a handlers line so far that holds `event`, and the
/// word being read; words are separated by spaces and `=`.
pub open spec fn handler_scan(line: Seq<u8>) -> (Option<Seq<u8>>, Seq<u8>)
    decreases line.len(),
{
    if line.len() == 0 {
        (None, Seq::empty())
    } else {
        let prev = handler_scan(line.drop_last());
        let b = line.last();
        if b == 32u8 || b == EQUALS {
            (if holds(prev.1, event_word()) { Some(prev.1) } else { prev.0 }, Seq::empty())
        } else {
            (prev.0, prev.1.push(b))
        }
    }
}

/// The last word of a handlers line that holds `event`, if any.
pub open spec fn handler_of(line: Seq<u8>) -> Option<Seq<u8>> {
    let s = handler_scan(line);
    if holds(s.1, event_word()) { Some(s.1) } else { s.0 }
}

/// Where the reading of the input device list stands: the sysfs path and
/// the event handler of the device being read, and the devices with keys
/// read so far; or the position of a sysfs line that cannot be read.
pub enum ListScan {
    Reading(Option<Seq<u8>>, Option<Seq<u8>>, Seq<(Option<Seq<u8>>, Option<Seq<u8>>)>),
    Malformed(int),
}

/// The reading after the line `line`, at position `n`: an empty line ends
/// a device; a sysfs line gives its path, after `=` and one more byte; a
/// handlers line its event handler; a keys line completes it.
pub open spec fn list_step(prev: ListScan, line: Seq<u8>, n: int) -> ListScan {
    match prev {
        ListScan::Malformed(k) => ListScan::Malformed(k),
        ListScan::Reading(sysfs, handler, found) => if line.len() == 0 {
            ListScan::Reading(None, None, found)
        } else if starts_with(line, sysfs_prefix()) {
            match first_index(line, EQUALS) {
                Some(i) => if i + 2 <= line.len() {
                    ListScan::Reading(Some(line.skip(i + 2)), handler, found)
                } else {
                    ListScan::Malformed(n)
                },
                None => ListScan::Malformed(n),
            }
        } else if starts_with(line, handlers_prefix()) {
            match handler_of(line) {
                Some(w) => ListScan::Reading(sysfs, Some(w), found),
                None => ListScan::Reading(sysfs, handler, found),
            }
        } else if starts_with(line, keys_prefix()) {
            ListScan::Reading(None, None, found.push((sysfs, handler)))
        } else {
            ListScan::Reading(sysfs, handler, found)
        },
    }
}

/// The reading of the lines `lines` of the input device list.
pub open spec fn list_scan(lines: Seq<Seq<u8>>) -> ListScan
    decreases lines.len(),
{
    if lines.len() == 0 {
        ListScan::Reading(None, None, Seq::empty())
    } else {
        list_step(list_scan(lines.drop_last()), lines.last(), lines.len() - 1)
    }
}

/// Whether `s` starts with `p`.
fn starts_with_bytes(s: &[u8], p: &[u8]) -> (r: bool)
    ensures
        r == starts_with(s@, p@),
{
    if s.len() < p.len() {
        return false;
    }
    let r = bytes_equal(s, 0, p.len(), p);
    assert(s@.subrange(0, p@.len() as int) =~= s@.take(p@.len() as int));
    r
}

/// Whether `s[start..end]` holds `p`.
fn holds_bytes(s: &[u8], start: usize, end: usize, p: &[u8]) -> (r: bool)
    requires
        start <= end <= s@.len(),
    ensures
        r == holds(s@.subrange(start as int, end as int), p@),
{
    let ghost w = s@.subrange(start as int, end as int);
    if end - start < p.len() {
        proof {
            if holds(w, p@) {
                let i = choose|i: int| 0 <= i && i + p@.len() <= w.len() && #[trigger] w.subrange(i, i + p@.len()) == p@;
            }
        }
        return false;
    }
    if p.len() == 0 {
        assert(w.subrange(0, 0 + p@.len() as int) =~= p@);
        assert(holds(w, p@));
        return true;
    }
    let count: usize = end - start - p.len() + 1;
    let mut k: usize = 0;
    while k < count
        invariant
            start <= end <= s@.len(),
            count == end - start - p@.len() + 1,
            p@.len() <= end - start,
            w == s@.subrange(start as int, end as int),
            forall|j: int| 0 <= j < k ==> #[trigger] w.subrange(j, j + p@.len()) != p@,
        decreases count - k,
    {
        let i = start + k;
        if bytes_equal(s, i, i + p.len(), p) {
            assert(w.subrange(k as int, k + p@.len()) =~= s@.subrange(i as int, i + p@.len()));
            return true;
        }
        assert(w.subrange(k as int, k + p@.len()) =~= s@.subrange(i as int, i + p@.len()));
        k = k + 1;
    }
    proof {
        if holds(w, p@) {
            let k = choose|k: int| 0 <= k && k + p@.len() <= w.len() && #[trigger] w.subrange(k, k + p@.len()) == p@;
            assert(k < count);
        }
    }
    false
}

/// The last word of the handlers line `line` that holds `event`.
fn handler_bytes(line: &[u8]) -> (r: Option<Vec<u8>>)
    ensures
        bytes_view(r) == handler_of(line@),
{
    let event: Vec<u8> = vec![101u8, 118u8, 101u8, 110u8, 116u8];
    assert(event@ =~= event_word());
    let mut last: Option<Vec<u8>> = None;
    let mut start: usize = 0;
    let mut i: usize = 0;
    assert(line@.take(0) =~= Seq::<u8>::empty());
    assert(line@.subrange(0, 0) =~= Seq::<u8>::empty());
    while i < line.len()
        invariant
            start <= i <= line@.len(),
            event@ == event_word(),
            handler_scan(line@.take(i as int)) == (bytes_view(last), line@.subrange(start as int, i as int)),
        decreases line.len() - i,
    {
        assert(line@.take(i + 1).drop_last() =~= line@.take(i as int));
        assert(line@.take(i + 1).last() == line@[i as int]);
        let b = line[i];
        if b == 32u8 || b == EQUALS {
            if holds_bytes(line, start, i, event.as_slice()) {
                last = Some(slice_to_vec(line, start, i));
            }
            start = i + 1;
            assert(line@.subrange(start as int, i + 1) =~= Seq::<u8>::empty());
        } else {
            assert(line@.subrange(start as int, i + 1) =~= line@.subrange(start as int, i as int).push(b));
        }
        i = i + 1;
    }
    assert(line@.take(line@.len() as int) =~= line@);
    if holds_bytes(line, start, line.len(), event.as_slice()) {
        Some(slice_to_vec(line, start, line.len()))
    } else {
        last
    }
}

/// A device with keys of the input device list: its sysfs path and its
/// event handler, as the list gives them.
#[derive(Debug, PartialEq, Eq)]
pub struct ListedDevice {
    pub sysfs: Option<Vec<u8>>,
    pub handler: Option<Vec<u8>>,
}

/// The devices with keys of the input device list `lines`, in order; or the
/// position of the first sysfs line that cannot be read.
pub fn enumerate(lines: &Vec<Vec<u8>>) -> (r: Result<Vec<ListedDevice>, usize>)
    ensures
        match list_scan(lines@.map_values(|l: Vec<u8>| l@)) {
            ListScan::Reading(_, _, found) => r matches Ok(v) && v@.len() == found.len()
                && forall|i: int| 0 <= i < v@.len() ==> (bytes_view((#[trigger] v@[i]).sysfs), bytes_view(v@[i].handler)) == found[i],
            ListScan::Malformed(n) => r == Err::<Vec<ListedDevice>, usize>(n as usize),
        },
{
    let ghost all = lines@.map_values(|l: Vec<u8>| l@);
    let s_prefix: Vec<u8> = vec![83u8, 58u8, 32u8];
    let h_prefix: Vec<u8> = vec![72u8, 58u8, 32u8];
    let b_prefix: Vec<u8> = vec![66u8, 58u8, 32u8, 75u8, 69u8, 89u8, 61u8];
    assert(s_prefix@ =~= sysfs_prefix());
    assert(h_prefix@ =~= handlers_prefix());
    assert(b_prefix@ =~= keys_prefix());
    let mut sysfs: Option<Vec<u8>> = None;
    let mut handler: Option<Vec<u8>> = None;
    let mut found: Vec<ListedDevice> = Vec::new();
    let mut n: usize = 0;
    assert(all.take(0) =~= Seq::<Seq<u8>>::empty());
    while n < lines.len()
        invariant
            n <= lines@.len(),
            all == lines@.map_values(|l: Vec<u8>| l@),
            s_prefix@ == sysfs_prefix(),
            h_prefix@ == handlers_prefix(),
            b_prefix@ == keys_prefix(),
            list_scan(all.take(n as int)) matches ListScan::Reading(s, h, f) && {
                &&& s == bytes_view(sysfs)
                &&& h == bytes_view(handler)
                &&& f.len() == found@.len()
                &&& forall|i: int| 0 <= i < found@.len() ==> (bytes_view((#[trigger] found@[i]).sysfs), bytes_view(found@[i].handler)) == f[i]
            },
        decreases lines.len() - n,
    {
        assert(all.take(n + 1).drop_last() =~= all.take(n as int));
        assert(all.take(n + 1).last() == lines@[n as int]@);
        let line = lines[n].as_slice();
        if line.len() == 0 {
            sysfs = None;
            handler = None;
        } else if starts_with_bytes(line, s_prefix.as_slice()) {
            proof {
                lemma_first_index(line@, EQUALS);
                assert(line@.subrange(0, line@.len() as int) =~= line@);
            }
            match find_byte(line, 0, line.len(), EQUALS) {
                Some(i) => {
                    if line.len() >= 2 && i <= line.len() - 2 {
                        sysfs = Some(slice_to_vec(line, i + 2, line.len()));
                        assert(line@.subrange(i + 2, line@.len() as int) =~= line@.skip(i + 2));
                    } else {
                        proof {
                            lemma_malformed_stays(all, n as int);
                        }
                        return Err(n);
                    }
                },
                None => {
                    proof {
                        lemma_malformed_stays(all, n as int);
                    }
                    return Err(n);
                },
            }
        } else if starts_with_bytes(line, h_prefix.as_slice()) {
            match handler_bytes(line) {
                Some(w) => {
                    handler = Some(w);
                },
                None => {},
            }
        } else if starts_with_bytes(line, b_prefix.as_slice()) {
            let device = ListedDevice { sysfs, handler };
            found.push(device);
            sysfs = None;
            handler = None;
        }
        n = n + 1;
    }
    assert(all.take(all.len() as int) =~= all);
    Ok(found)
}

/// Once a line cannot be read, the reading stays stopped at it.
proof fn lemma_malformed_stays(lines: Seq<Seq<u8>>, n: int)
    requires
        0 <= n < lines.len(),
        list_scan(lines.take(n + 1)) is Malformed,
    ensures
        list_scan(lines) == list_scan(lines.take(n + 1)),
    decreases lines.len() - n,
{
    if n + 1 < lines.len() {
        assert(lines.take(n + 2).drop_last() =~= lines.take(n + 1));
        lemma_malformed_stays(lines, n + 1);
    } else {
        assert(lines.take(n + 1) =~= lines);
    }
}

/// `virtual`.
pub open spec fn virtual_word() -> Seq<u8> {
    seq![118u8, 105u8, 114u8, 116u8, 117u8, 97u8, 108u8]
}

/// The byte strings of `v`.
pub open spec fn byte_views(v: Seq<Vec<u8>>) -> Seq<Seq<u8>> {
    v.map_values(|b: Vec<u8>| b@)
}

/// The driver of an input device whose sysfs path has the components
/// `components`: `virtual` where a component holds `virtual`, else the
/// driver of the device's grandparent, if it has one.
pub open spec fn driver_of(components: Seq<Seq<u8>>, grandparent: Option<Seq<u8>>) -> Option<Seq<u8>> {
    if exists|i: int| 0 <= i < components.len() && holds(#[trigger] components[i], virtual_word()) {
        Some(virtual_word())
    } else {
        grandparent
    }
}

/// The driver of an input device (`driver_of`).
pub fn driver(components: &Vec<Vec<u8>>, grandparent: Option<Vec<u8>>) -> (r: Option<Vec<u8>>)
    ensures
        bytes_view(r) == driver_of(byte_views(components@), bytes_view(grandparent)),
{
    let word: Vec<u8> = vec![118u8, 105u8, 114u8, 116u8, 117u8, 97u8, 108u8];
    assert(word@ =~= virtual_word());
    let ghost all = byte_views(components@);
    let mut i: usize = 0;
    while i < components.len()
        invariant
            i <= components@.len(),
            word@ == virtual_word(),
            all == byte_views(components@),
            forall|j: int| 0 <= j < i ==> !holds(#[trigger] all[j], virtual_word()),
        decreases components.len() - i,
    {
        let component = components[i].as_slice();
        let found = holds_bytes(component, 0, component.len(), word.as_slice());
        assert(component@.subrange(0, component@.len() as int) =~= component@);
        assert(all[i as int] == component@);
        if found {
            return Some(word);
        }
        i = i + 1;
    }
    grandparent
}

/// A device is an input event node: its system name starts with `event`.
pub fn is_event_node(sysname: &[u8]) -> (r: bool)
    ensures
        r == starts_with(sysname@, event_word()),
{
    let word: Vec<u8> = vec![101u8, 118u8, 101u8, 110u8, 116u8];
    assert(word@ =~= event_word());
    starts_with_bytes(sysname, word.as_slice())
}

} // verus!
