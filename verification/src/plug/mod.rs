//! Plugs: a physical device joined to ports through an adapter. A plug
//! keeps, for each input code of the device, the transforms that turn the
//! device's events into events of the ports.

pub mod table;
pub mod transform;

use vstd::prelude::*;
use crate::config::adapter::{Adapter, Device as InputConfig, Mapper, Output};
use crate::config::lookup::named;
use crate::device::{Device, DeviceId};
use crate::input::{AxisEvent, InputEvent, KeyEvent, MotionEvent, SyncEvent, ABS_MAX, KEY_MAX, REL_MAX};
use crate::port::{Port, PortId};
use crate::text::{debug_quoted, debug_str};
use transform::{AxisTransform, KeyTransform, MotionTransform, Transform, TransformCreateContext, find_message};
use transform::axis::AxisTransformView;

verus! {

/// Identifier of a plug.
#[derive(Clone, Copy, Debug, PartialEq, Eq, Structural, Hash)]
pub struct PlugId(pub usize);

/// A device plugged into ports through an adapter.
pub struct Plug {
    pub id: PlugId,
    /// Name of the adapter.
    pub name: String,
    pub deviceid: DeviceId,
    pub portids: Vec<PortId>,
    pub keys: table::Key<(KeyTransform, PortId)>,
    pub axes: table::Axis<(AxisTransform, PortId)>,
    pub motions: table::Motion<(MotionTransform, PortId)>,
}

/// Why a plug could not be made or could not translate an event.
pub enum Error {
    Unknown,
    /// The adapter has no input, output or mapping for the device or port.
    Find(String),
    Transform(transform::Error),
}

/// Model of an `Error`.
pub enum ErrorView {
    Unknown,
    Find(Seq<char>),
    Transform(transform::ErrorView),
}

impl View for Error {
    type V = ErrorView;

    open spec fn view(&self) -> ErrorView {
        match self {
            Error::Unknown => ErrorView::Unknown,
            Error::Find(s) => ErrorView::Find(s@),
            Error::Transform(e) => ErrorView::Transform(e@),
        }
    }
}

/// Model of a plug's tables: for each input code, the transforms with the
/// port that each feeds, in the order they were added.
pub struct TablesView {
    pub keys: Seq<Seq<(KeyTransform, PortId)>>,
    pub axes: Seq<Seq<(AxisTransformView, PortId)>>,
    pub motions: Seq<Seq<(MotionTransform, PortId)>>,
}

/// Tables with an empty list for every code.
pub open spec fn empty_tables() -> TablesView {
    TablesView {
        keys: table::empty_rows(KEY_MAX as nat + 1),
        axes: table::empty_rows(ABS_MAX as nat + 1),
        motions: table::empty_rows(REL_MAX as nat + 1),
    }
}

/// The axis table, each transform taken by its model.
pub open spec fn axes_view(rows: Seq<Seq<(AxisTransform, PortId)>>) -> Seq<Seq<(AxisTransformView, PortId)>> {
    rows.map_values(|r: Seq<(AxisTransform, PortId)>| r.map_values(|e: (AxisTransform, PortId)| (e.0@, e.1)))
}

impl TablesView {
    /// The tables have one list per code of each kind.
    pub open spec fn wf(self) -> bool {
        &&& self.keys.len() == KEY_MAX as nat + 1
        &&& self.axes.len() == ABS_MAX as nat + 1
        &&& self.motions.len() == REL_MAX as nat + 1
    }
}

/// Folds `step` over `items` from the first, stopping at the first error.
pub open spec fn try_fold<A, T, E>(init: T, items: Seq<A>, step: spec_fn(T, A) -> Result<T, E>) -> Result<T, E>
    decreases items.len(),
{
    if items.len() == 0 {
        Ok(init)
    } else {
        match try_fold(init, items.drop_last(), step) {
            Ok(t) => step(t, items.last()),
            Err(e) => Err(e),
        }
    }
}

/// Once a prefix of the items fails, the whole fold fails with its error.
pub proof fn lemma_try_fold_err<A, T, E>(init: T, items: Seq<A>, step: spec_fn(T, A) -> Result<T, E>, j: int)
    requires
        0 <= j <= items.len(),
        try_fold(init, items.take(j), step) is Err,
    ensures
        try_fold(init, items, step) == try_fold(init, items.take(j), step),
    decreases items.len() - j,
{
    if j < items.len() {
        assert(items.take(j + 1).drop_last() =~= items.take(j));
        lemma_try_fold_err(init, items, step, j + 1);
    } else {
        assert(items.take(j) =~= items);
    }
}

/// The first input of an adapter that matches the device kind `kind`.
pub open spec fn first_input(inputs: Seq<InputConfig>, kind: Seq<char>) -> Option<InputConfig>
    decreases inputs.len(),
{
    if inputs.len() == 0 {
        None
    } else if inputs[0].match_@ == kind {
        Some(inputs[0])
    } else {
        first_input(inputs.drop_first(), kind)
    }
}

/// The first output of an adapter that matches the port kind `kind`.
pub open spec fn first_output(outputs: Seq<Output>, kind: Seq<char>) -> Option<Output>
    decreases outputs.len(),
{
    if outputs.len() == 0 {
        None
    } else if outputs[0].match_@ == kind {
        Some(outputs[0])
    } else {
        first_output(outputs.drop_first(), kind)
    }
}

/// The mappers of the first entry of an adapter's map for the pair
/// (input, output).
pub open spec fn map_entry(map: Seq<((String, String), Seq<Mapper>)>, input: Seq<char>, output: Seq<char>) -> Option<Seq<Mapper>>
    decreases map.len(),
{
    if map.len() == 0 {
        None
    } else if map[0].0.0@ == input && map[0].0.1@ == output {
        Some(map[0].1)
    } else {
        map_entry(map.drop_first(), input, output)
    }
}

/// Message for a pair (input, output) that an adapter does not map.
pub open spec fn map_message(adapter: Seq<char>, input: Seq<char>, output: Seq<char>) -> Seq<char> {
    "[Plug "@ + debug_quoted(adapter) + "] Unable to find map "@ + "("@ + debug_quoted(input) + ", "@ + debug_quoted(output) + ")"@
}

/// The tables after adding the transform that `mapper` describes, for the
/// port `port`.
#[verifier::opaque]
pub open spec fn add_mapper(context: TransformCreateContext, port: PortId, t: TablesView, mapper: Mapper) -> Result<TablesView, ErrorView> {
    if mapper is Key || mapper is KeyReversed || mapper is KeyToAxis {
        match KeyTransform::spec_create(context, mapper) {
            Err(e) => Err(ErrorView::Transform(e)),
            Ok((k, tr)) => Ok(TablesView { keys: t.keys.update(k.0 as int, t.keys[k.0 as int].push((tr, port))), ..t }),
        }
    } else if mapper is Motion {
        match MotionTransform::spec_create(context, mapper) {
            Err(e) => Err(ErrorView::Transform(e)),
            Ok((m, tr)) => Ok(TablesView { motions: t.motions.update(m.0 as int, t.motions[m.0 as int].push((tr, port))), ..t }),
        }
    } else {
        match AxisTransform::spec_create(context, mapper) {
            Err(e) => Err(ErrorView::Transform(e)),
            Ok((a, tr)) => Ok(TablesView { axes: t.axes.update(a.0 as int, t.axes[a.0 as int].push((tr, port))), ..t }),
        }
    }
}

/// The tables after adding the transforms of `mappers` in order, for the
/// port `port`; the first failure fails the whole.
pub open spec fn add_mappers(context: TransformCreateContext, port: PortId, t: TablesView, mappers: Seq<Mapper>) -> Result<TablesView, ErrorView>
    decreases mappers.len(),
{
    if mappers.len() == 0 {
        Ok(t)
    } else {
        match add_mappers(context, port, t, mappers.drop_last()) {
            Ok(t1) => add_mapper(context, port, t1, mappers.last()),
            Err(e) => Err(e),
        }
    }
}

/// Once a prefix of the mappers fails, the whole list fails with its error.
proof fn lemma_add_mappers_err(context: TransformCreateContext, port: PortId, t: TablesView, mappers: Seq<Mapper>, j: int)
    requires
        0 <= j <= mappers.len(),
        add_mappers(context, port, t, mappers.take(j)) is Err,
    ensures
        add_mappers(context, port, t, mappers) == add_mappers(context, port, t, mappers.take(j)),
    decreases mappers.len() - j,
{
    if j < mappers.len() {
        assert(mappers.take(j + 1).drop_last() =~= mappers.take(j));
        lemma_add_mappers_err(context, port, t, mappers, j + 1);
    } else {
        assert(mappers.take(j) =~= mappers);
    }
}

/// The tables after adding, for one port, what the adapter maps from the
/// device onto the port: the adapter's input matching the device's kind,
/// its output matching the port's kind, and the mappers of that pair.
pub open spec fn spec_fill<'a>(adapter: &'a Adapter, device: &'a Device, port: &'a Port, t: TablesView) -> Result<TablesView, ErrorView> {
    match first_input(adapter.inputs@, device.config.name@) {
        None => Err(ErrorView::Find(find_message(adapter.name@, "input"@, device.config.name@))),
        Some(input) => match first_output(adapter.outputs@, port.config.name@) {
            None => Err(ErrorView::Find(find_message(adapter.name@, "output"@, port.config.name@))),
            Some(output) => match map_entry(adapter@.map, input.name@, output.name@) {
                None => Err(ErrorView::Find(map_message(adapter.name@, input.name@, output.name@))),
                Some(mappers) => add_mappers(TransformCreateContext { device, port, adapter }, port.id, t, mappers),
            },
        },
    }
}

/// The tables of a plug of `device` into `ports` through `adapter`: each
/// port's mappings in turn, the first failure failing the whole.
pub open spec fn spec_tables<'a>(adapter: &'a Adapter, device: &'a Device, ports: Seq<&'a Port>) -> Result<TablesView, ErrorView> {
    try_fold(empty_tables(), ports, |t: TablesView, p: &'a Port| spec_fill(adapter, device, p, t))
}

/// The events that a key event becomes through the transforms `row`, each
/// with the port it goes to; the first error stops the translation.
pub open spec fn key_outputs(row: Seq<(KeyTransform, PortId)>, event: KeyEvent) -> Result<Seq<(InputEvent, PortId)>, ErrorView>
    decreases row.len(),
{
    if row.len() == 0 {
        Ok(Seq::empty())
    } else {
        match key_outputs(row.drop_last(), event) {
            Err(e) => Err(e),
            Ok(prev) => match row.last().0.spec_apply(event) {
                Err(e) => Err(ErrorView::Transform(e)),
                Ok(events) => Ok(prev + events.map_values(|ev: InputEvent| (ev, row.last().1))),
            },
        }
    }
}

/// The events that a motion event becomes through the transforms `row`.
pub open spec fn motion_outputs(row: Seq<(MotionTransform, PortId)>, event: MotionEvent) -> Seq<(InputEvent, PortId)>
    decreases row.len(),
{
    if row.len() == 0 {
        Seq::empty()
    } else {
        let prev = motion_outputs(row.drop_last(), event);
        match row.last().0.spec_apply(event) {
            Ok(events) => prev + events.map_values(|ev: InputEvent| (ev, row.last().1)),
            Err(_) => prev,
        }
    }
}

/// The transforms `row` after an axis event, and the events it becomes.
pub open spec fn axis_outputs(row: Seq<(AxisTransformView, PortId)>, event: AxisEvent) -> (Seq<(AxisTransformView, PortId)>, Seq<(InputEvent, PortId)>)
    decreases row.len(),
{
    if row.len() == 0 {
        (Seq::empty(), Seq::empty())
    } else {
        let prev = axis_outputs(row.drop_last(), event);
        let step = row.last().0.step(event);
        (prev.0.push((step.0, row.last().1)), prev.1 + step.1.map_values(|ev: InputEvent| (ev, row.last().1)))
    }
}

/// Every transform of `row` can take `event` without overflow.
pub open spec fn axis_row_ready(row: Seq<(AxisTransformView, PortId)>, event: AxisEvent) -> bool {
    forall|j: int| 0 <= j < row.len() ==> (#[trigger] row[j]).0.ready(event)
}

/// Translated events, taken by their sequence.
pub open spec fn outputs_view(r: Result<Vec<(InputEvent, PortId)>, Error>) -> Result<Seq<(InputEvent, PortId)>, ErrorView> {
    match r {
        Ok(v) => Ok(v@),
        Err(e) => Err(e@),
    }
}

/// A created plug, taken by its tables.
pub open spec fn tables_view(r: Result<Plug, Error>) -> Result<TablesView, ErrorView> {
    match r {
        Ok(p) => Ok(p.tables()),
        Err(e) => Err(e@),
    }
}

/// The codes that `context`'s device tables give are in range, so are the
/// codes of the transforms created in it.
proof fn lemma_created_in_range(context: TransformCreateContext, mapper: Mapper)
    requires
        context.device.config@.ids_in_range(),
    ensures
        KeyTransform::spec_create(context, mapper) matches Ok((k, _)) ==> k.0 <= KEY_MAX,
        AxisTransform::spec_create(context, mapper) matches Ok((a, _)) ==> a.0 <= ABS_MAX,
        MotionTransform::spec_create(context, mapper) matches Ok((m, _)) ==> m.0 <= REL_MAX,
{
    let keys = context.device.config.keys@;
    let axes = context.device.config.axes@;
    let motions = context.device.config.motions@;
    match mapper {
        Mapper::Key(i, _) | Mapper::KeyReversed(i, _) | Mapper::KeyToAxis(i, _) => {
            crate::config::lookup::lemma_named(keys, i@);
            if let Some(k) = named(keys, i@) {
                let j = choose|j: int| 0 <= j < keys.len() && keys[j].0@ == i@ && keys[j].1 == k
                    && forall|l: int| 0 <= l < j ==> keys[l].0@ != i@;
                assert(context.device.config@.keys[j].1.0 <= KEY_MAX);
            }
        },
        Mapper::Axis(i, _) | Mapper::AxisReversed(i, _) | Mapper::AxisToKeys(i, _, _, _) | Mapper::HatToKeys(i, _, _) => {
            crate::config::lookup::lemma_named(axes, i@);
            if let Some(a) = named(axes, i@) {
                let j = choose|j: int| 0 <= j < axes.len() && axes[j].0@ == i@ && axes[j].1 == a
                    && forall|l: int| 0 <= l < j ==> axes[l].0@ != i@;
                assert(context.device.config@.axes[j].1.0 <= ABS_MAX);
            }
        },
        Mapper::Motion(i, _) => {
            crate::config::lookup::lemma_named(motions, i@);
            if let Some(m) = named(motions, i@) {
                let j = choose|j: int| 0 <= j < motions.len() && motions[j].0@ == i@ && motions[j].1 == m
                    && forall|l: int| 0 <= l < j ==> motions[l].0@ != i@;
                assert(context.device.config@.motions[j].1.0 <= REL_MAX);
            }
        },
    }
}

/// The transform that `mapper` creates, if any, reads an input code within
/// the range of its kind of input.
pub open spec fn mapper_in_range(context: TransformCreateContext, mapper: Mapper) -> bool {
    &&& KeyTransform::spec_create(context, mapper) matches Ok((k, _)) ==> k.0 <= KEY_MAX
    &&& AxisTransform::spec_create(context, mapper) matches Ok((a, _)) ==> a.0 <= ABS_MAX
    &&& MotionTransform::spec_create(context, mapper) matches Ok((m, _)) ==> m.0 <= REL_MAX
}

/// Each mapper of `mappers` that is reached (all before it create their
/// transforms) reads an input code within range.
pub open spec fn mappers_in_range(context: TransformCreateContext, port: PortId, t: TablesView, mappers: Seq<Mapper>) -> bool
    decreases mappers.len(),
{
    mappers.len() == 0 || {
        &&& mappers_in_range(context, port, t, mappers.drop_last())
        &&& add_mappers(context, port, t, mappers.drop_last()) is Ok ==> mapper_in_range(context, mappers.last())
    }
}

/// The mappers that the adapter uses from the device onto `port`, when it
/// has them, read input codes within range as far as they are reached.
pub open spec fn fill_in_range<'a>(adapter: &'a Adapter, device: &'a Device, port: &'a Port, t: TablesView) -> bool {
    match first_input(adapter.inputs@, device.config.name@) {
        None => true,
        Some(input) => match first_output(adapter.outputs@, port.config.name@) {
            None => true,
            Some(output) => match map_entry(adapter@.map, input.name@, output.name@) {
                None => true,
                Some(mappers) => mappers_in_range(TransformCreateContext { device, port, adapter }, port.id, t, mappers),
            },
        },
    }
}

/// Plugging `device` into `ports` through `adapter` reads only input codes
/// within range, for each port that it reaches.
pub open spec fn plug_in_range<'a>(adapter: &'a Adapter, device: &'a Device, ports: Seq<&'a Port>) -> bool
    decreases ports.len(),
{
    ports.len() == 0 || {
        &&& plug_in_range(adapter, device, ports.drop_last())
        &&& spec_tables(adapter, device, ports.drop_last()) matches Ok(t) ==> fill_in_range(adapter, device, ports.last(), t)
    }
}

/// The mappers reached within a prefix are those of the whole.
proof fn lemma_mappers_in_range_prefix(context: TransformCreateContext, port: PortId, t: TablesView, mappers: Seq<Mapper>, j: int)
    requires
        0 <= j <= mappers.len(),
        mappers_in_range(context, port, t, mappers),
    ensures
        mappers_in_range(context, port, t, mappers.take(j)),
    decreases mappers.len(),
{
    if j == mappers.len() {
        assert(mappers.take(j) =~= mappers);
    } else {
        assert(mappers.drop_last().take(j) =~= mappers.take(j));
        lemma_mappers_in_range_prefix(context, port, t, mappers.drop_last(), j);
    }
}

/// The ports reached within a prefix are those of the whole.
proof fn lemma_plug_in_range_prefix<'a>(adapter: &'a Adapter, device: &'a Device, ports: Seq<&'a Port>, j: int)
    requires
        0 <= j <= ports.len(),
        plug_in_range(adapter, device, ports),
    ensures
        plug_in_range(adapter, device, ports.take(j)),
    decreases ports.len(),
{
    if j == ports.len() {
        assert(ports.take(j) =~= ports);
    } else {
        assert(ports.drop_last().take(j) =~= ports.take(j));
        lemma_plug_in_range_prefix(adapter, device, ports.drop_last(), j);
    }
}

/// Mappers of a device whose name tables are all in range read codes in range.
proof fn lemma_mappers_in_range(context: TransformCreateContext, port: PortId, t: TablesView, mappers: Seq<Mapper>)
    requires
        context.device.config@.ids_in_range(),
    ensures
        mappers_in_range(context, port, t, mappers),
    decreases mappers.len(),
{
    if mappers.len() > 0 {
        lemma_mappers_in_range(context, port, t, mappers.drop_last());
        lemma_created_in_range(context, mappers.last());
    }
}

/// A device whose name tables are all in range can be plugged into any ports.
pub proof fn lemma_plug_in_range<'a>(adapter: &'a Adapter, device: &'a Device, ports: Seq<&'a Port>)
    requires
        device.config@.ids_in_range(),
    ensures
        plug_in_range(adapter, device, ports),
    decreases ports.len(),
{
    if ports.len() > 0 {
        lemma_plug_in_range(adapter, device, ports.drop_last());
        if let Ok(t) = spec_tables(adapter, device, ports.drop_last()) {
            let port = ports.last();
            match first_input(adapter.inputs@, device.config.name@) {
                None => {},
                Some(input) => match first_output(adapter.outputs@, port.config.name@) {
                    None => {},
                    Some(output) => match map_entry(adapter@.map, input.name@, output.name@) {
                        None => {},
                        Some(mappers) => {
                            lemma_mappers_in_range(TransformCreateContext { device, port, adapter }, port.id, t, mappers);
                        },
                    },
                },
            }
        }
    }
}

/// Appending to a row of the axis table appends the transform's model to
/// the row of the table's model.
proof fn lemma_axes_view_push(rows: Seq<Seq<(AxisTransform, PortId)>>, index: int, entry: (AxisTransform, PortId))
    requires
        0 <= index < rows.len(),
    ensures
        axes_view(rows.update(index, rows[index].push(entry)))
            == axes_view(rows).update(index, axes_view(rows)[index].push((entry.0@, entry.1))),
{
    let lhs = axes_view(rows.update(index, rows[index].push(entry)));
    let rhs = axes_view(rows).update(index, axes_view(rows)[index].push((entry.0@, entry.1)));
    assert forall|k: int| 0 <= k < lhs.len() implies lhs[k] =~= rhs[k] by {}
    assert(lhs =~= rhs);
}

/// Adds to the tables the transform that `mapper` describes, for `port`.
fn add_one(
    context: &TransformCreateContext,
    port: PortId,
    mapper: &Mapper,
    keys: &mut table::Key<(KeyTransform, PortId)>,
    axes: &mut table::Axis<(AxisTransform, PortId)>,
    motions: &mut table::Motion<(MotionTransform, PortId)>,
) -> (r: Result<(), Error>)
    requires
        mapper_in_range(*context, *mapper),
        (TablesView { keys: old(keys)@, axes: axes_view(old(axes)@), motions: old(motions)@ }).wf(),
    ensures
        match r {
            Ok(()) => add_mapper(*context, port, TablesView { keys: old(keys)@, axes: axes_view(old(axes)@), motions: old(motions)@ }, *mapper)
                == Ok::<TablesView, ErrorView>(TablesView { keys: final(keys)@, axes: axes_view(final(axes)@), motions: final(motions)@ }),
            Err(e) => add_mapper(*context, port, TablesView { keys: old(keys)@, axes: axes_view(old(axes)@), motions: old(motions)@ }, *mapper)
                == Err::<TablesView, ErrorView>(e@),
        },
        (TablesView { keys: final(keys)@, axes: axes_view(final(axes)@), motions: final(motions)@ }).wf(),
{
    proof {
        reveal(add_mapper);
    }
    match mapper {
        Mapper::Key(..) | Mapper::KeyReversed(..) | Mapper::KeyToAxis(..) => {
            match KeyTransform::create(context, mapper) {
                Ok((input, transform)) => {
                    keys.push(input.0, (transform, port));
                    Ok(())
                },
                Err(e) => Err(Error::Transform(e)),
            }
        },
        Mapper::Axis(..) | Mapper::AxisReversed(..) | Mapper::AxisToKeys(..) | Mapper::HatToKeys(..) => {
            match AxisTransform::create(context, mapper) {
                Ok((input, transform)) => {
                    let ghost before = axes@;
                    axes.push(input.0, (transform, port));
                    proof {
                        lemma_axes_view_push(before, input.0 as int, (transform, port));
                    }
                    Ok(())
                },
                Err(e) => Err(Error::Transform(e)),
            }
        },
        Mapper::Motion(..) => {
            match MotionTransform::create(context, mapper) {
                Ok((input, transform)) => {
                    motions.push(input.0, (transform, port));
                    Ok(())
                },
                Err(e) => Err(Error::Transform(e)),
            }
        },
    }
}

impl Plug {
    /// The plug's tables.
    pub open spec fn tables(&self) -> TablesView {
        TablesView { keys: self.keys@, axes: axes_view(self.axes@), motions: self.motions@ }
    }

    /// The plug's tables have one list per code of each kind.
    pub open spec fn wf(&self) -> bool {
        self.tables().wf()
    }

    /// Plugs `device` into `ports` through the adapter `config`: for each
    /// port in turn, adds the transforms that the adapter maps from the
    /// device onto the port. Fails with the first mapping that fails.
    pub fn new(id: PlugId, config: &Adapter, device: &Device, ports: &[&Port]) -> (r: Result<Plug, Error>)
        requires
            plug_in_range(config, device, ports@),
        ensures
            tables_view(r) == spec_tables(config, device, ports@),
            r matches Ok(p) ==> {
                &&& p.id == id
                &&& p.name@ == config.name@
                &&& p.deviceid == device.id
                &&& p.portids@ == ports@.map_values(|p: &Port| p.id)
                &&& p.wf()
            },
    {
        let name = config.name.clone();
        let deviceid = device.id;
        let mut portids: Vec<PortId> = Vec::new();
        let mut keys: table::Key<(KeyTransform, PortId)> = table::Table::keys();
        let mut axes: table::Axis<(AxisTransform, PortId)> = table::Table::axes();
        let mut motions: table::Motion<(MotionTransform, PortId)> = table::Table::motions();
        let ghost step = |t: TablesView, p: &Port| spec_fill(config, device, p, t);
        assert forall|k: int| 0 <= k < axes_view(axes@).len() implies axes_view(axes@)[k] =~= empty_tables().axes[k] by {}
        assert(axes_view(axes@) =~= empty_tables().axes);
        assert(ports@.take(0) =~= Seq::<&Port>::empty());
        let mut i: usize = 0;
        while i < ports.len()
            invariant
                i <= ports.len(),
                plug_in_range(config, device, ports@),
                portids@ == ports@.take(i as int).map_values(|p: &Port| p.id),
                step == (|t: TablesView, p: &Port| spec_fill(config, device, p, t)),
                try_fold(empty_tables(), ports@.take(i as int), step)
                    == Ok::<TablesView, ErrorView>(TablesView { keys: keys@, axes: axes_view(axes@), motions: motions@ }),
                (TablesView { keys: keys@, axes: axes_view(axes@), motions: motions@ }).wf(),
            decreases ports.len() - i,
        {
            assert(ports@.take(i + 1).drop_last() =~= ports@.take(i as int));
            proof {
                lemma_plug_in_range_prefix(config, device, ports@, i + 1);
                assert(ports@.take(i + 1).last() == ports@[i as int]);
                assert(spec_tables(config, device, ports@.take(i as int)) == try_fold(empty_tables(), ports@.take(i as int), step));
            }
            let filled = Plug::fill(config, device, ports[i], &mut keys, &mut axes, &mut motions);
            match filled {
                Ok(()) => {},
                Err(e) => {
                    proof {
                        lemma_try_fold_err(empty_tables(), ports@, step, i + 1);
                    }
                    return Err(e);
                },
            }
            portids.push(ports[i].id);
            assert(ports@.take(i + 1).map_values(|p: &Port| p.id) =~= ports@.take(i as int).map_values(|p: &Port| p.id).push(ports@[i as int].id));
            i = i + 1;
        }
        assert(ports@.take(ports.len() as int) =~= ports@);
        Ok(Plug { id, name, deviceid, portids, keys, axes, motions })
    }

    /// Adds to the tables what `adapter` maps from `device` onto `port`.
    fn fill(
        adapter: &Adapter,
        device: &Device,
        port: &Port,
        keys: &mut table::Key<(KeyTransform, PortId)>,
        axes: &mut table::Axis<(AxisTransform, PortId)>,
        motions: &mut table::Motion<(MotionTransform, PortId)>,
    ) -> (r: Result<(), Error>)
        requires
            fill_in_range(adapter, device, port, TablesView { keys: old(keys)@, axes: axes_view(old(axes)@), motions: old(motions)@ }),
            (TablesView { keys: old(keys)@, axes: axes_view(old(axes)@), motions: old(motions)@ }).wf(),
        ensures
            match r {
                Ok(()) => spec_fill(adapter, device, port, TablesView { keys: old(keys)@, axes: axes_view(old(axes)@), motions: old(motions)@ })
                    == Ok::<TablesView, ErrorView>(TablesView { keys: final(keys)@, axes: axes_view(final(axes)@), motions: final(motions)@ }),
                Err(e) => spec_fill(adapter, device, port, TablesView { keys: old(keys)@, axes: axes_view(old(axes)@), motions: old(motions)@ })
                    == Err::<TablesView, ErrorView>(e@),
            },
            (TablesView { keys: final(keys)@, axes: axes_view(final(axes)@), motions: final(motions)@ }).wf(),
    {
        let ghost t0 = TablesView { keys: keys@, axes: axes_view(axes@), motions: motions@ };
        // The adapter's input for the device's kind.
        let mut ii: usize = 0;
        assert(adapter.inputs@.skip(0) =~= adapter.inputs@);
        loop
            invariant
                ii <= adapter.inputs.len(),
                first_input(adapter.inputs@, device.config.name@) == first_input(adapter.inputs@.skip(ii as int), device.config.name@),
            ensures
                ii < adapter.inputs.len() ==> first_input(adapter.inputs@, device.config.name@) == Some(adapter.inputs@[ii as int]),
                ii >= adapter.inputs.len() ==> first_input(adapter.inputs@, device.config.name@) is None,
            decreases adapter.inputs.len() - ii,
        {
            if ii >= adapter.inputs.len() {
                break;
            }
            assert(adapter.inputs@.skip(ii as int).drop_first() =~= adapter.inputs@.skip(ii + 1));
            if adapter.inputs[ii].match_ == device.config.name {
                break;
            }
            ii = ii + 1;
        }
        let input_index = ii;
        if input_index >= adapter.inputs.len() {
            let mut msg = String::from_str("[Plug ");
            let q = debug_str(&adapter.name);
            msg.append(q.as_str());
            msg.append("] Unable to find ");
            msg.append("input");
            msg.append(" ");
            let q = debug_str(&device.config.name);
            msg.append(q.as_str());
            return Err(Error::Find(msg));
        }
        let input = &adapter.inputs[input_index];
        // The adapter's output for the port's kind.
        let mut oi: usize = 0;
        assert(adapter.outputs@.skip(0) =~= adapter.outputs@);
        loop
            invariant
                oi <= adapter.outputs.len(),
                first_output(adapter.outputs@, port.config.name@) == first_output(adapter.outputs@.skip(oi as int), port.config.name@),
            ensures
                oi < adapter.outputs.len() ==> first_output(adapter.outputs@, port.config.name@) == Some(adapter.outputs@[oi as int]),
                oi >= adapter.outputs.len() ==> first_output(adapter.outputs@, port.config.name@) is None,
            decreases adapter.outputs.len() - oi,
        {
            if oi >= adapter.outputs.len() {
                break;
            }
            assert(adapter.outputs@.skip(oi as int).drop_first() =~= adapter.outputs@.skip(oi + 1));
            if adapter.outputs[oi].match_ == port.config.name {
                break;
            }
            oi = oi + 1;
        }
        let output_index = oi;
        if output_index >= adapter.outputs.len() {
            let mut msg = String::from_str("[Plug ");
            let q = debug_str(&adapter.name);
            msg.append(q.as_str());
            msg.append("] Unable to find ");
            msg.append("output");
            msg.append(" ");
            let q = debug_str(&port.config.name);
            msg.append(q.as_str());
            return Err(Error::Find(msg));
        }
        let output = &adapter.outputs[output_index];
        // The mappers of the pair.
        let mut mi: usize = 0;
        assert(adapter@.map.skip(0) =~= adapter@.map);
        loop
            invariant
                mi <= adapter.map.len(),
                map_entry(adapter@.map, input.name@, output.name@) == map_entry(adapter@.map.skip(mi as int), input.name@, output.name@),
            ensures
                mi < adapter.map.len() ==> map_entry(adapter@.map, input.name@, output.name@) == Some(adapter.map@[mi as int].1@),
                mi >= adapter.map.len() ==> map_entry(adapter@.map, input.name@, output.name@) is None,
            decreases adapter.map.len() - mi,
        {
            if mi >= adapter.map.len() {
                break;
            }
            assert(adapter@.map.skip(mi as int).drop_first() =~= adapter@.map.skip(mi + 1));
            if adapter.map[mi].0.0 == input.name && adapter.map[mi].0.1 == output.name {
                break;
            }
            mi = mi + 1;
        }
        let map_index = mi;
        if map_index >= adapter.map.len() {
            let mut msg = String::from_str("[Plug ");
            let q = debug_str(&adapter.name);
            msg.append(q.as_str());
            msg.append("] Unable to find map ");
            msg.append("(");
            let q = debug_str(&input.name);
            msg.append(q.as_str());
            msg.append(", ");
            let q = debug_str(&output.name);
            msg.append(q.as_str());
            msg.append(")");
            return Err(Error::Find(msg));
        }
        let map = &adapter.map[map_index].1;
        let context = TransformCreateContext { device, port, adapter };
        assert(map@.take(0) =~= Seq::<Mapper>::empty());
        let mut i: usize = 0;
        while i < map.len()
            invariant
                i <= map.len(),
                mappers_in_range(context, port.id, t0, map@),
                context == (TransformCreateContext { device, port, adapter }),
                first_input(adapter.inputs@, device.config.name@) == Some(*input),
                first_output(adapter.outputs@, port.config.name@) == Some(*output),
                map_entry(adapter@.map, input.name@, output.name@) == Some(map@),
                t0 == (TablesView { keys: old(keys)@, axes: axes_view(old(axes)@), motions: old(motions)@ }),
                add_mappers(context, port.id, t0, map@.take(i as int))
                    == Ok::<TablesView, ErrorView>(TablesView { keys: keys@, axes: axes_view(axes@), motions: motions@ }),
                (TablesView { keys: keys@, axes: axes_view(axes@), motions: motions@ }).wf(),
            decreases map.len() - i,
        {
            assert(map@.take(i + 1).drop_last() =~= map@.take(i as int));
            assert(map@.take(i + 1).last() == map@[i as int]);
            proof {
                lemma_mappers_in_range_prefix(context, port.id, t0, map@, i + 1);
            }
            match add_one(&context, port.id, &map[i], keys, axes, motions) {
                Ok(()) => {},
                Err(e) => {
                    proof {
                        lemma_add_mappers_err(context, port.id, t0, map@, i + 1);
                    }
                    return Err(e);
                },
            }
            i = i + 1;
        }
        assert(map@.take(map.len() as int) =~= map@);
        Ok(())
    }

    /// The ports that a synchronisation event of the device goes to: all
    /// the plug's ports.
    pub fn sync_ports(&self, _event: SyncEvent) -> (r: &[PortId])
        ensures
            r@ == self.portids@,
    {
        self.portids.as_slice()
    }

    /// The events that a key event of the device becomes, each with its port.
    pub fn translate_key(&mut self, event: &KeyEvent) -> (r: Result<Vec<(InputEvent, PortId)>, Error>)
        requires
            old(self).wf(),
            event.id.0 <= KEY_MAX,
        ensures
            *final(self) == *old(self),
            outputs_view(r) == key_outputs(old(self).tables().keys[event.id.0 as int], *event),
    {
        let row = self.keys.row(event.id.0);
        let mut vec: Vec<(InputEvent, PortId)> = Vec::with_capacity(row.len());
        let mut j: usize = 0;
        assert(row@.take(0) =~= Seq::<(KeyTransform, PortId)>::empty());
        while j < row.len()
            invariant
                j <= row.len(),
                row@ == old(self).tables().keys[event.id.0 as int],
                key_outputs(row@.take(j as int), *event) == Ok::<Seq<(InputEvent, PortId)>, ErrorView>(vec@),
            decreases row.len() - j,
        {
            assert(row@.take(j + 1).drop_last() =~= row@.take(j as int));
            let mut transform = row[j].0;
            let id = row[j].1;
            match transform.apply(event) {
                Ok(events) => {
                    let ghost prev = vec@;
                    let mut k: usize = 0;
                    while k < events.len()
                        invariant
                            k <= events.len(),
                            vec@ == prev + events@.take(k as int).map_values(|ev: InputEvent| (ev, id)),
                        decreases events.len() - k,
                    {
                        vec.push((events[k], id));
                        assert(events@.take(k + 1).map_values(|ev: InputEvent| (ev, id))
                            =~= events@.take(k as int).map_values(|ev: InputEvent| (ev, id)).push((events@[k as int], id)));
                        k = k + 1;
                    }
                    assert(events@.take(events.len() as int) =~= events@);
                    assert(row@.take(j + 1).last() == row@[j as int]);
                },
                Err(e) => {
                    proof {
                        assert(row@.take(j + 1).last() == row@[j as int]);
                        assert(key_outputs(row@.take(j + 1), *event) is Err);
                        lemma_key_outputs_err(row@, *event, j + 1);
                        assert(row@.take(row.len() as int) =~= row@);
                    }
                    return Err(Error::Transform(e));
                },
            }
            j = j + 1;
        }
        assert(row@.take(row.len() as int) =~= row@);
        Ok(vec)
    }

    /// The events that an absolute axis event of the device becomes, each
    /// with its port; the transforms of the axis take the event.
    pub fn translate_axis(&mut self, event: &AxisEvent) -> (r: Result<Vec<(InputEvent, PortId)>, Error>)
        requires
            old(self).wf(),
            event.id.0 <= ABS_MAX,
            axis_row_ready(old(self).tables().axes[event.id.0 as int], *event),
        ensures
            final(self).wf(),
            final(self).id == old(self).id,
            final(self).name == old(self).name,
            final(self).deviceid == old(self).deviceid,
            final(self).portids == old(self).portids,
            final(self).tables() == (TablesView {
                axes: old(self).tables().axes.update(
                    event.id.0 as int,
                    axis_outputs(old(self).tables().axes[event.id.0 as int], *event).0,
                ),
                ..old(self).tables()
            }),
            outputs_view(r) == Ok::<Seq<(InputEvent, PortId)>, ErrorView>(
                axis_outputs(old(self).tables().axes[event.id.0 as int], *event).1,
            ),
    {
        let ghost old_axes = self.axes@;
        let mut row = self.axes.take_row(event.id.0);
        let ghost old_row = row@;
        let ghost row_view = old_row.map_values(|e: (AxisTransform, PortId)| (e.0@, e.1));
        assert(row_view == axes_view(old_axes)[event.id.0 as int]);
        let mut vec: Vec<(InputEvent, PortId)> = Vec::with_capacity(row.len());
        let mut j: usize = 0;
        assert(row_view.take(0) =~= Seq::<(AxisTransformView, PortId)>::empty());
        while j < row.len()
            invariant
                j <= row.len(),
                row@.len() == old_row.len(),
                row_view == old_row.map_values(|e: (AxisTransform, PortId)| (e.0@, e.1)),
                axis_row_ready(row_view, *event),
                forall|k: int| j <= k < row@.len() ==> #[trigger] row@[k] == old_row[k],
                row@.take(j as int).map_values(|e: (AxisTransform, PortId)| (e.0@, e.1)) == axis_outputs(row_view.take(j as int), *event).0,
                vec@ == axis_outputs(row_view.take(j as int), *event).1,
            decreases row.len() - j,
        {
            assert(row_view.take(j + 1).drop_last() =~= row_view.take(j as int));
            assert(row_view[j as int].0.ready(*event));
            let id = row[j].1;
            let ghost before = row@;
            let result = row[j].0.apply(event);
            let events = match result {
                Ok(events) => events,
                Err(e) => {
                    proof {
                        assert(false);
                    }
                    return Err(Error::Transform(e));
                },
            };
            let ghost prev = vec@;
            let mut k: usize = 0;
            while k < events.len()
                invariant
                    k <= events.len(),
                    vec@ == prev + events@.take(k as int).map_values(|ev: InputEvent| (ev, id)),
                decreases events.len() - k,
            {
                vec.push((events[k], id));
                assert(events@.take(k + 1).map_values(|ev: InputEvent| (ev, id))
                    =~= events@.take(k as int).map_values(|ev: InputEvent| (ev, id)).push((events@[k as int], id)));
                k = k + 1;
            }
            assert(events@.take(events.len() as int) =~= events@);
            assert(row@.take(j + 1).map_values(|e: (AxisTransform, PortId)| (e.0@, e.1))
                =~= row@.take(j as int).map_values(|e: (AxisTransform, PortId)| (e.0@, e.1)).push((row@[j as int].0@, id)));
            assert(row@.take(j as int) =~= before.take(j as int));
            j = j + 1;
        }
        assert(row_view.take(row.len() as int) =~= row_view);
        assert(row@.take(row.len() as int) =~= row@);
        let ghost new_row = row@;
        self.axes.put_row(event.id.0, row);
        assert(axes_view(self.axes@) =~= axes_view(old_axes).update(
            event.id.0 as int,
            new_row.map_values(|e: (AxisTransform, PortId)| (e.0@, e.1)),
        ));
        Ok(vec)
    }

    /// The events that a relative axis event of the device becomes, each
    /// with its port.
    pub fn translate_motion(&mut self, event: &MotionEvent) -> (r: Result<Vec<(InputEvent, PortId)>, Error>)
        requires
            old(self).wf(),
            event.id.0 <= REL_MAX,
        ensures
            *final(self) == *old(self),
            outputs_view(r) == Ok::<Seq<(InputEvent, PortId)>, ErrorView>(
                motion_outputs(old(self).tables().motions[event.id.0 as int], *event),
            ),
    {
        let row = self.motions.row(event.id.0);
        let mut vec: Vec<(InputEvent, PortId)> = Vec::with_capacity(row.len());
        let mut j: usize = 0;
        assert(row@.take(0) =~= Seq::<(MotionTransform, PortId)>::empty());
        while j < row.len()
            invariant
                j <= row.len(),
                row@ == old(self).tables().motions[event.id.0 as int],
                motion_outputs(row@.take(j as int), *event) == vec@,
            decreases row.len() - j,
        {
            assert(row@.take(j + 1).drop_last() =~= row@.take(j as int));
            let mut transform = row[j].0;
            let id = row[j].1;
            match transform.apply(event) {
                Ok(events) => {
                    let ghost prev = vec@;
                    let mut k: usize = 0;
                    while k < events.len()
                        invariant
                            k <= events.len(),
                            vec@ == prev + events@.take(k as int).map_values(|ev: InputEvent| (ev, id)),
                        decreases events.len() - k,
                    {
                        vec.push((events[k], id));
                        assert(events@.take(k + 1).map_values(|ev: InputEvent| (ev, id))
                            =~= events@.take(k as int).map_values(|ev: InputEvent| (ev, id)).push((events@[k as int], id)));
                        k = k + 1;
                    }
                    assert(events@.take(events.len() as int) =~= events@);
                },
                Err(e) => {
                    proof {
                        assert(false);
                    }
                    return Err(Error::Transform(e));
                },
            }
            j = j + 1;
        }
        assert(row@.take(row.len() as int) =~= row@);
        Ok(vec)
    }

    /// Whether every transform of the axis of `event` can take it without
    /// overflow.
    pub fn can_translate_axis(&self, event: &AxisEvent) -> (r: bool)
        requires
            self.wf(),
            event.id.0 <= ABS_MAX,
        ensures
            r == axis_row_ready(self.tables().axes[event.id.0 as int], *event),
    {
        let row = self.axes.row(event.id.0);
        let ghost row_view = row@.map_values(|e: (AxisTransform, PortId)| (e.0@, e.1));
        assert(row_view == self.tables().axes[event.id.0 as int]);
        let mut j: usize = 0;
        while j < row.len()
            invariant
                j <= row.len(),
                row_view == row@.map_values(|e: (AxisTransform, PortId)| (e.0@, e.1)),
                row_view == self.tables().axes[event.id.0 as int],
                forall|k: int| 0 <= k < j ==> (#[trigger] row_view[k]).0.ready(*event),
            decreases row.len() - j,
        {
            assert(row_view[j as int] == (row@[j as int].0@, row@[j as int].1));
            if !row[j].0.is_ready(event) {
                assert(!row_view[j as int].0.ready(*event));
                return false;
            }
            j = j + 1;
        }
        true
    }
}

/// Once the transforms of a prefix of a row fail, the whole row fails
/// with the same error.
proof fn lemma_key_outputs_err(row: Seq<(KeyTransform, PortId)>, event: KeyEvent, j: int)
    requires
        0 <= j <= row.len(),
        key_outputs(row.take(j), event) is Err,
    ensures
        key_outputs(row, event) == key_outputs(row.take(j), event),
    decreases row.len() - j,
{
    if j < row.len() {
        assert(row.take(j + 1).drop_last() =~= row.take(j));
        lemma_key_outputs_err(row, event, j + 1);
    } else {
        assert(row.take(j) =~= row);
    }
}

/// Every transform of the tables `t` feeds a port of `ids`.
pub open spec fn routes_within(t: TablesView, ids: Set<PortId>) -> bool {
    &&& forall|c: int, j: int| 0 <= c < t.keys.len() && 0 <= j < t.keys[c].len() ==> ids.contains(#[trigger] t.keys[c][j].1)
    &&& forall|c: int, j: int| 0 <= c < t.axes.len() && 0 <= j < t.axes[c].len() ==> ids.contains(#[trigger] t.axes[c][j].1)
    &&& forall|c: int, j: int| 0 <= c < t.motions.len() && 0 <= j < t.motions[c].len() ==> ids.contains(#[trigger] t.motions[c][j].1)
}

/// Adding a mapper for a port of `ids` keeps the tables feeding ports of `ids`.
proof fn lemma_add_mapper_routes(context: TransformCreateContext, port: PortId, t: TablesView, mapper: Mapper, ids: Set<PortId>)
    requires
        routes_within(t, ids),
        ids.contains(port),
        t.wf(),
        mapper_in_range(context, mapper),
    ensures
        add_mapper(context, port, t, mapper) matches Ok(t1) ==> routes_within(t1, ids) && t1.wf(),
{
    reveal(add_mapper);
    if mapper is Key || mapper is KeyReversed || mapper is KeyToAxis {
        if let Ok((k, tr)) = KeyTransform::spec_create(context, mapper) {
            let t1 = TablesView { keys: t.keys.update(k.0 as int, t.keys[k.0 as int].push((tr, port))), ..t };
            assert forall|c: int, j: int| 0 <= c < t1.keys.len() && 0 <= j < t1.keys[c].len() implies ids.contains(#[trigger] t1.keys[c][j].1) by {
                if c == k.0 as int && j == t.keys[c].len() {
                } else {
                    assert(t1.keys[c][j] == t.keys[c][j]);
                }
            }
        }
    } else if mapper is Motion {
        if let Ok((m, tr)) = MotionTransform::spec_create(context, mapper) {
            let t1 = TablesView { motions: t.motions.update(m.0 as int, t.motions[m.0 as int].push((tr, port))), ..t };
            assert forall|c: int, j: int| 0 <= c < t1.motions.len() && 0 <= j < t1.motions[c].len() implies ids.contains(#[trigger] t1.motions[c][j].1) by {
                if c == m.0 as int && j == t.motions[c].len() {
                } else {
                    assert(t1.motions[c][j] == t.motions[c][j]);
                }
            }
        }
    } else {
        if let Ok((x, tr)) = AxisTransform::spec_create(context, mapper) {
            let t1 = TablesView { axes: t.axes.update(x.0 as int, t.axes[x.0 as int].push((tr, port))), ..t };
            assert forall|c: int, j: int| 0 <= c < t1.axes.len() && 0 <= j < t1.axes[c].len() implies ids.contains(#[trigger] t1.axes[c][j].1) by {
                if c == x.0 as int && j == t.axes[c].len() {
                } else {
                    assert(t1.axes[c][j] == t.axes[c][j]);
                }
            }
        }
    }
}

/// Adding mappers for a port of `ids` keeps the tables feeding ports of `ids`.
proof fn lemma_add_mappers_routes(context: TransformCreateContext, port: PortId, t: TablesView, mappers: Seq<Mapper>, ids: Set<PortId>)
    requires
        routes_within(t, ids),
        ids.contains(port),
        t.wf(),
        mappers_in_range(context, port, t, mappers),
    ensures
        add_mappers(context, port, t, mappers) matches Ok(t1) ==> routes_within(t1, ids) && t1.wf(),
    decreases mappers.len(),
{
    if mappers.len() > 0 {
        lemma_add_mappers_routes(context, port, t, mappers.drop_last(), ids);
        if let Ok(t1) = add_mappers(context, port, t, mappers.drop_last()) {
            lemma_add_mapper_routes(context, port, t1, mappers.last(), ids);
        }
    }
}

/// The tables of a plug feed only the ports that it was made with.
pub proof fn lemma_plug_routes<'a>(adapter: &'a Adapter, device: &'a Device, ports: Seq<&'a Port>, ids: Set<PortId>)
    requires
        plug_in_range(adapter, device, ports),
        forall|i: int| 0 <= i < ports.len() ==> ids.contains((#[trigger] ports[i]).id),
    ensures
        spec_tables(adapter, device, ports) matches Ok(t) ==> routes_within(t, ids) && t.wf(),
    decreases ports.len(),
{
    if ports.len() == 0 {
        assert(routes_within(empty_tables(), ids));
    } else {
        let prefix = ports.drop_last();
        lemma_plug_routes(adapter, device, prefix, ids);
        assert(spec_tables(adapter, device, prefix) == try_fold(empty_tables(), prefix, |t: TablesView, p: &'a Port| spec_fill(adapter, device, p, t)));
        if let Ok(t) = spec_tables(adapter, device, prefix) {
            let port = ports.last();
            assert(ids.contains(port.id));
            match first_input(adapter.inputs@, device.config.name@) {
                None => {},
                Some(input) => match first_output(adapter.outputs@, port.config.name@) {
                    None => {},
                    Some(output) => match map_entry(adapter@.map, input.name@, output.name@) {
                        None => {},
                        Some(mappers) => {
                            lemma_add_mappers_routes(TransformCreateContext { device, port, adapter }, port.id, t, mappers, ids);
                        },
                    },
                },
            }
        }
    }
}

/// The events that a key event becomes go only to ports of the row.
pub proof fn lemma_key_outputs_ports(row: Seq<(KeyTransform, PortId)>, event: KeyEvent, ids: Set<PortId>)
    requires
        forall|j: int| 0 <= j < row.len() ==> ids.contains((#[trigger] row[j]).1),
    ensures
        key_outputs(row, event) matches Ok(o) ==> forall|i: int| 0 <= i < o.len() ==> ids.contains((#[trigger] o[i]).1),
    decreases row.len(),
{
    if row.len() > 0 {
        let prefix = row.drop_last();
        assert forall|j: int| 0 <= j < prefix.len() implies ids.contains((#[trigger] prefix[j]).1) by {
            assert(prefix[j] == row[j]);
        }
        lemma_key_outputs_ports(prefix, event, ids);
        if let Ok(o) = key_outputs(row, event) {
            let prev = key_outputs(prefix, event)->Ok_0;
            let events = row.last().0.spec_apply(event)->Ok_0;
            assert(o == prev + events.map_values(|ev: InputEvent| (ev, row.last().1)));
            assert forall|i: int| 0 <= i < o.len() implies ids.contains((#[trigger] o[i]).1) by {
                if i >= prev.len() {
                    assert(o[i] == events.map_values(|ev: InputEvent| (ev, row.last().1))[i - prev.len()]);
                    assert(ids.contains(row[row.len() - 1].1));
                } else {
                    assert(o[i] == prev[i]);
                }
            }
        }
    }
}

/// The events that a motion event becomes go only to ports of the row.
pub proof fn lemma_motion_outputs_ports(row: Seq<(MotionTransform, PortId)>, event: MotionEvent, ids: Set<PortId>)
    requires
        forall|j: int| 0 <= j < row.len() ==> ids.contains((#[trigger] row[j]).1),
    ensures
        forall|i: int| 0 <= i < motion_outputs(row, event).len() ==> ids.contains((#[trigger] motion_outputs(row, event)[i]).1),
    decreases row.len(),
{
    if row.len() > 0 {
        let prefix = row.drop_last();
        assert forall|j: int| 0 <= j < prefix.len() implies ids.contains((#[trigger] prefix[j]).1) by {
            assert(prefix[j] == row[j]);
        }
        lemma_motion_outputs_ports(prefix, event, ids);
        let o = motion_outputs(row, event);
        let prev = motion_outputs(prefix, event);
        if let Ok(events) = row.last().0.spec_apply(event) {
            assert(o == prev + events.map_values(|ev: InputEvent| (ev, row.last().1)));
            assert forall|i: int| 0 <= i < o.len() implies ids.contains((#[trigger] o[i]).1) by {
                if i >= prev.len() {
                    assert(o[i] == events.map_values(|ev: InputEvent| (ev, row.last().1))[i - prev.len()]);
                    assert(ids.contains(row[row.len() - 1].1));
                } else {
                    assert(o[i] == prev[i]);
                }
            }
        }
    }
}

/// An axis event keeps the port and the readiness of each transform of
/// the row, and the events it becomes go only to ports of the row.
pub proof fn lemma_axis_outputs_ports(row: Seq<(AxisTransformView, PortId)>, event: AxisEvent, ids: Set<PortId>)
    requires
        forall|j: int| 0 <= j < row.len() ==> ids.contains((#[trigger] row[j]).1),
    ensures
        axis_outputs(row, event).0.len() == row.len(),
        forall|j: int| 0 <= j < row.len() ==> (#[trigger] axis_outputs(row, event).0[j]).1 == row[j].1,
        forall|j: int| 0 <= j < row.len() ==> (#[trigger] axis_outputs(row, event).0[j]).0 == row[j].0.step(event).0,
        axis_row_ready(axis_outputs(row, event).0, event) == axis_row_ready(row, event),
        forall|i: int| 0 <= i < axis_outputs(row, event).1.len() ==> ids.contains((#[trigger] axis_outputs(row, event).1[i]).1),
    decreases row.len(),
{
    if row.len() > 0 {
        let prefix = row.drop_last();
        assert forall|j: int| 0 <= j < prefix.len() implies ids.contains((#[trigger] prefix[j]).1) by {
            assert(prefix[j] == row[j]);
        }
        lemma_axis_outputs_ports(prefix, event, ids);
        let o = axis_outputs(row, event);
        let prev = axis_outputs(prefix, event);
        let step = row.last().0.step(event);
        assert(o.1 == prev.1 + step.1.map_values(|ev: InputEvent| (ev, row.last().1)));
        assert forall|j: int| 0 <= j < row.len() implies (#[trigger] o.0[j]).1 == row[j].1 && o.0[j].0 == row[j].0.step(event).0 by {
            if j < prefix.len() {
                assert(o.0[j] == prev.0[j]);
            }
        }
        assert(axis_row_ready(o.0, event) == axis_row_ready(row, event)) by {
            assert forall|j: int| 0 <= j < row.len() implies (#[trigger] o.0[j]).0.ready(event) == row[j].0.ready(event) by {
                assert(o.0[j].0 == row[j].0.step(event).0);
            }
            if axis_row_ready(row, event) {
                assert forall|j: int| 0 <= j < o.0.len() implies (#[trigger] o.0[j]).0.ready(event) by {
                    assert(row[j].0.ready(event));
                }
            }
            if axis_row_ready(o.0, event) {
                assert forall|j: int| 0 <= j < row.len() implies (#[trigger] row[j]).0.ready(event) by {
                    assert(o.0[j].0.ready(event));
                }
            }
        }
        assert forall|i: int| 0 <= i < o.1.len() implies ids.contains((#[trigger] o.1[i]).1) by {
            if i >= prev.1.len() {
                assert(o.1[i] == step.1.map_values(|ev: InputEvent| (ev, row.last().1))[i - prev.1.len()]);
                assert(ids.contains(row[row.len() - 1].1));
            } else {
                assert(o.1[i] == prev.1[i]);
            }
        }
    }
}

/// The outputs of `s` that are absolute axis events, in order.
pub open spec fn axis_events_only(s: Seq<(InputEvent, PortId)>) -> Seq<(InputEvent, PortId)>
    decreases s.len(),
{
    if s.len() == 0 {
        Seq::empty()
    } else if s.last().0 is Axis {
        axis_events_only(s.drop_last()).push(s.last())
    } else {
        axis_events_only(s.drop_last())
    }
}

/// Keeping the axis events distributes over concatenation.
proof fn lemma_axis_events_only_add(a: Seq<(InputEvent, PortId)>, b: Seq<(InputEvent, PortId)>)
    ensures
        axis_events_only(a + b) == axis_events_only(a) + axis_events_only(b),
    decreases b.len(),
{
    if b.len() == 0 {
        assert(a + b =~= a);
        assert(axis_events_only(a) + axis_events_only(b) =~= axis_events_only(a));
    } else {
        assert((a + b).drop_last() =~= a + b.drop_last());
        assert((a + b).last() == b.last());
        lemma_axis_events_only_add(a, b.drop_last());
        if b.last().0 is Axis {
            assert(axis_events_only(a) + axis_events_only(b.drop_last()).push(b.last())
                =~= (axis_events_only(a) + axis_events_only(b.drop_last())).push(b.last()));
        }
    }
}

/// Outputs that are all key events keep no axis event.
proof fn lemma_axis_events_only_keys(s: Seq<(InputEvent, PortId)>)
    requires
        forall|i: int| 0 <= i < s.len() ==> (#[trigger] s[i]).0 is Key,
    ensures
        axis_events_only(s) == Seq::<(InputEvent, PortId)>::empty(),
    decreases s.len(),
{
    if s.len() > 0 {
        let p = s.drop_last();
        assert forall|i: int| 0 <= i < p.len() implies (#[trigger] p[i]).0 is Key by {
            assert(p[i] == s[i]);
        }
        lemma_axis_events_only_keys(p);
    }
}

/// Translating the same absolute axis event a second time leaves the
/// transforms as the first time left them, and gives again the axis events
/// of the first time and no key event: the keys already hold the states
/// that the event asks for.
pub proof fn lemma_axis_outputs_twice(row: Seq<(AxisTransformView, PortId)>, event: AxisEvent)
    ensures
        axis_outputs(axis_outputs(row, event).0, event).0 == axis_outputs(row, event).0,
        axis_outputs(axis_outputs(row, event).0, event).1 == axis_events_only(axis_outputs(row, event).1),
    decreases row.len(),
{
    if row.len() > 0 {
        let prefix = row.drop_last();
        lemma_axis_outputs_twice(prefix, event);
        lemma_axis_outputs_ports(row, event, Set::<PortId>::full());
        let first = axis_outputs(row, event);
        let prev = axis_outputs(prefix, event);
        let port = row.last().1;
        let step1 = row.last().0.step(event);
        assert(first.0 == prev.0.push((step1.0, port)));
        assert(first.0.drop_last() =~= prev.0);
        assert(first.0.last() == (step1.0, port));
        let step2 = step1.0.step(event);
        let mapped1 = step1.1.map_values(|ev: InputEvent| (ev, port));
        lemma_axis_events_only_add(prev.1, mapped1);
        match row.last().0 {
            AxisTransformView::IntoAxis(t) => {
                assert(step2 == step1);
                assert(mapped1 =~= seq![(step1.1[0], port)]);
                assert(mapped1.drop_last() =~= Seq::<(InputEvent, PortId)>::empty());
                assert(mapped1.last().0 is Axis);
                assert(axis_events_only(mapped1.drop_last()) == Seq::<(InputEvent, PortId)>::empty());
                assert(axis_events_only(mapped1) =~= mapped1);
                assert(step2.1.map_values(|ev: InputEvent| (ev, first.0.last().1)) =~= mapped1);
            },
            AxisTransformView::IntoKeys(keys) => {
                transform::axis::lemma_keys_step_settled(keys, event.timestamp, event.timestamp, event.state.0 as int);
                transform::axis::lemma_keys_step_keys(keys, event.timestamp, event.state.0 as int);
                assert forall|i: int| 0 <= i < mapped1.len() implies (#[trigger] mapped1[i]).0 is Key by {
                    assert(mapped1[i].0 == step1.1[i]);
                }
                lemma_axis_events_only_keys(mapped1);
                assert(step2.0 == step1.0);
                assert(step2.1.map_values(|ev: InputEvent| (ev, first.0.last().1)) =~= Seq::<(InputEvent, PortId)>::empty());
            },
        }
        let second = axis_outputs(first.0, event);
        assert(second.0 =~= first.0);
        assert(second.1 =~= axis_events_only(first.1));
    }
}

/// Whether a mapper creates its transform does not depend on the tables.
proof fn lemma_add_mapper_ok(context: TransformCreateContext, port: PortId, t1: TablesView, t2: TablesView, mapper: Mapper)
    ensures
        (add_mapper(context, port, t1, mapper) is Ok) == (add_mapper(context, port, t2, mapper) is Ok),
{
    lemma_add_mapper_ok_any(context, port, port, t1, t2, mapper);
}

/// Whether a mapper creates its transform depends neither on the tables nor
/// on the port.
proof fn lemma_add_mapper_ok_any(context: TransformCreateContext, p1: PortId, p2: PortId, t1: TablesView, t2: TablesView, mapper: Mapper)
    ensures
        (add_mapper(context, p1, t1, mapper) is Ok) == (add_mapper(context, p2, t2, mapper) is Ok),
{
    reveal(add_mapper);
}

/// Whether mappers create their transforms, and which of their codes are
/// reached, does not depend on the tables.
proof fn lemma_add_mappers_ok(context: TransformCreateContext, port: PortId, t1: TablesView, t2: TablesView, mappers: Seq<Mapper>)
    ensures
        (add_mappers(context, port, t1, mappers) is Ok) == (add_mappers(context, port, t2, mappers) is Ok),
        mappers_in_range(context, port, t1, mappers) == mappers_in_range(context, port, t2, mappers),
    decreases mappers.len(),
{
    if mappers.len() > 0 {
        lemma_add_mappers_ok(context, port, t1, t2, mappers.drop_last());
        if let Ok(a) = add_mappers(context, port, t1, mappers.drop_last()) {
            let b = add_mappers(context, port, t2, mappers.drop_last())->Ok_0;
            lemma_add_mapper_ok(context, port, a, b, mappers.last());
        }
    }
}

/// Filling a port succeeds, and reads codes in range, whatever the tables.
proof fn lemma_fill_ok<'a>(adapter: &'a Adapter, device: &'a Device, port: &'a Port, t1: TablesView, t2: TablesView)
    ensures
        (spec_fill(adapter, device, port, t1) is Ok) == (spec_fill(adapter, device, port, t2) is Ok),
        fill_in_range(adapter, device, port, t1) == fill_in_range(adapter, device, port, t2),
{
    match first_input(adapter.inputs@, device.config.name@) {
        None => {},
        Some(input) => match first_output(adapter.outputs@, port.config.name@) {
            None => {},
            Some(output) => match map_entry(adapter@.map, input.name@, output.name@) {
                None => {},
                Some(mappers) => {
                    lemma_add_mappers_ok(TransformCreateContext { device, port, adapter }, port.id, t1, t2, mappers);
                },
            },
        },
    }
}

/// Once a prefix of the mappers fails, the codes of the later ones are not
/// reached.
proof fn lemma_mappers_in_range_err(context: TransformCreateContext, port: PortId, t: TablesView, mappers: Seq<Mapper>, j: int)
    requires
        0 <= j <= mappers.len(),
        add_mappers(context, port, t, mappers.take(j)) is Err,
    ensures
        mappers_in_range(context, port, t, mappers) == mappers_in_range(context, port, t, mappers.take(j)),
    decreases mappers.len() - j,
{
    if j < mappers.len() {
        assert(mappers.take(j + 1).drop_last() =~= mappers.take(j));
        lemma_mappers_in_range_err(context, port, t, mappers, j + 1);
    } else {
        assert(mappers.take(j) =~= mappers);
    }
}

/// Once a prefix of the ports fails, the codes of the later ones are not
/// reached.
proof fn lemma_plug_in_range_err<'a>(adapter: &'a Adapter, device: &'a Device, ports: Seq<&'a Port>, j: int)
    requires
        0 <= j <= ports.len(),
        spec_tables(adapter, device, ports.take(j)) is Err,
    ensures
        plug_in_range(adapter, device, ports) == plug_in_range(adapter, device, ports.take(j)),
    decreases ports.len() - j,
{
    if j < ports.len() {
        let next = ports.take(j + 1);
        assert(next.drop_last() =~= ports.take(j));
        assert(spec_tables(adapter, device, next) == try_fold(empty_tables(), next, |t: TablesView, p: &'a Port| spec_fill(adapter, device, p, t)));
        assert(spec_tables(adapter, device, ports.take(j)) == try_fold(empty_tables(), ports.take(j), |t: TablesView, p: &'a Port| spec_fill(adapter, device, p, t)));
        assert(spec_tables(adapter, device, next) is Err);
        lemma_plug_in_range_err(adapter, device, ports, j + 1);
    } else {
        assert(ports.take(j) =~= ports);
    }
}

/// Whether the transform of `mapper` is created, and whether its code, if
/// created, is in range.
fn mapper_codes(context: &TransformCreateContext, mapper: &Mapper) -> (r: (bool, bool))
    ensures
        r.0 == (add_mapper(*context, PortId(0), empty_tables(), *mapper) is Ok),
        r.1 == mapper_in_range(*context, *mapper),
{
    proof {
        reveal(add_mapper);
    }
    match mapper {
        Mapper::Key(..) | Mapper::KeyReversed(..) | Mapper::KeyToAxis(..) => {
            match KeyTransform::create(context, mapper) {
                Ok((input, _)) => (true, input.0 <= KEY_MAX),
                Err(_) => (false, true),
            }
        },
        Mapper::Axis(..) | Mapper::AxisReversed(..) | Mapper::AxisToKeys(..) | Mapper::HatToKeys(..) => {
            match AxisTransform::create(context, mapper) {
                Ok((input, _)) => (true, input.0 <= ABS_MAX),
                Err(_) => (false, true),
            }
        },
        Mapper::Motion(..) => {
            match MotionTransform::create(context, mapper) {
                Ok((input, _)) => (true, input.0 <= REL_MAX),
                Err(_) => (false, true),
            }
        },
    }
}

/// The mappers of the adapter from the device onto `port`, if it has them.
fn find_mappers<'a>(adapter: &'a Adapter, device: &Device, port: &Port) -> (r: Option<&'a Vec<Mapper>>)
    ensures
        match r {
            Some(m) => first_input(adapter.inputs@, device.config.name@) matches Some(input)
                && first_output(adapter.outputs@, port.config.name@) matches Some(output)
                && map_entry(adapter@.map, input.name@, output.name@) == Some(m@),
            None => match first_input(adapter.inputs@, device.config.name@) {
                None => true,
                Some(input) => match first_output(adapter.outputs@, port.config.name@) {
                    None => true,
                    Some(output) => map_entry(adapter@.map, input.name@, output.name@) is None,
                },
            },
        },
{
    let mut ii: usize = 0;
    assert(adapter.inputs@.skip(0) =~= adapter.inputs@);
    loop
        invariant
            ii <= adapter.inputs.len(),
            first_input(adapter.inputs@, device.config.name@) == first_input(adapter.inputs@.skip(ii as int), device.config.name@),
        ensures
            ii < adapter.inputs.len() ==> first_input(adapter.inputs@, device.config.name@) == Some(adapter.inputs@[ii as int]),
            ii >= adapter.inputs.len() ==> first_input(adapter.inputs@, device.config.name@) is None,
        decreases adapter.inputs.len() - ii,
    {
        if ii >= adapter.inputs.len() {
            break;
        }
        assert(adapter.inputs@.skip(ii as int).drop_first() =~= adapter.inputs@.skip(ii + 1));
        if adapter.inputs[ii].match_ == device.config.name {
            break;
        }
        ii = ii + 1;
    }
    if ii >= adapter.inputs.len() {
        return None;
    }
    let input = &adapter.inputs[ii];
    let mut oi: usize = 0;
    assert(adapter.outputs@.skip(0) =~= adapter.outputs@);
    loop
        invariant
            oi <= adapter.outputs.len(),
            first_output(adapter.outputs@, port.config.name@) == first_output(adapter.outputs@.skip(oi as int), port.config.name@),
        ensures
            oi < adapter.outputs.len() ==> first_output(adapter.outputs@, port.config.name@) == Some(adapter.outputs@[oi as int]),
            oi >= adapter.outputs.len() ==> first_output(adapter.outputs@, port.config.name@) is None,
        decreases adapter.outputs.len() - oi,
    {
        if oi >= adapter.outputs.len() {
            break;
        }
        assert(adapter.outputs@.skip(oi as int).drop_first() =~= adapter.outputs@.skip(oi + 1));
        if adapter.outputs[oi].match_ == port.config.name {
            break;
        }
        oi = oi + 1;
    }
    if oi >= adapter.outputs.len() {
        return None;
    }
    let output = &adapter.outputs[oi];
    let mut mi: usize = 0;
    assert(adapter@.map.skip(0) =~= adapter@.map);
    loop
        invariant
            mi <= adapter.map.len(),
            map_entry(adapter@.map, input.name@, output.name@) == map_entry(adapter@.map.skip(mi as int), input.name@, output.name@),
        ensures
            mi < adapter.map.len() ==> map_entry(adapter@.map, input.name@, output.name@) == Some(adapter.map@[mi as int].1@),
            mi >= adapter.map.len() ==> map_entry(adapter@.map, input.name@, output.name@) is None,
        decreases adapter.map.len() - mi,
    {
        if mi >= adapter.map.len() {
            break;
        }
        assert(adapter@.map.skip(mi as int).drop_first() =~= adapter@.map.skip(mi + 1));
        if adapter.map[mi].0.0 == input.name && adapter.map[mi].0.1 == output.name {
            break;
        }
        mi = mi + 1;
    }
    if mi >= adapter.map.len() {
        return None;
    }
    Some(&adapter.map[mi].1)
}

/// Whether the codes that the adapter's mappers from the device onto `port`
/// reach are in range, and, where they are, whether filling the port
/// succeeds.
fn port_codes(adapter: &Adapter, device: &Device, port: &Port) -> (r: (bool, bool))
    ensures
        r.0 == fill_in_range(adapter, device, port, empty_tables()),
        r.0 ==> r.1 == (spec_fill(adapter, device, port, empty_tables()) is Ok),
{
    let map = match find_mappers(adapter, device, port) {
        Some(map) => map,
        None => return (true, false),
    };
    let context = TransformCreateContext { device, port, adapter };
    let ghost e = empty_tables();
    proof {
        let input = first_input(adapter.inputs@, device.config.name@)->Some_0;
        let output = first_output(adapter.outputs@, port.config.name@)->Some_0;
        assert(map_entry(adapter@.map, input.name@, output.name@) == Some(map@));
        assert(fill_in_range(adapter, device, port, e) == mappers_in_range(context, port.id, e, map@));
        assert(spec_fill(adapter, device, port, e) == add_mappers(context, port.id, e, map@));
    }
    assert(map@.take(0) =~= Seq::<Mapper>::empty());
    let mut j: usize = 0;
    while j < map.len()
        invariant
            j <= map@.len(),
            context == (TransformCreateContext { device, port, adapter }),
            e == empty_tables(),
            fill_in_range(adapter, device, port, e) == mappers_in_range(context, port.id, e, map@),
            spec_fill(adapter, device, port, e) == add_mappers(context, port.id, e, map@),
            mappers_in_range(context, port.id, e, map@.take(j as int)),
            add_mappers(context, port.id, e, map@.take(j as int)) is Ok,
        decreases map@.len() - j,
    {
        let ghost prefix = map@.take(j as int);
        assert(map@.take(j + 1).drop_last() =~= prefix);
        assert(map@.take(j + 1).last() == map@[j as int]);
        let (created, in_range) = mapper_codes(&context, &map[j]);
        proof {
            let t = add_mappers(context, port.id, e, prefix)->Ok_0;
            lemma_add_mapper_ok_any(context, PortId(0), port.id, e, t, map@[j as int]);
        }
        if !in_range {
            proof {
                assert(!mapper_in_range(context, map@[j as int]));
                assert(!mappers_in_range(context, port.id, e, map@.take(j + 1)));
                if mappers_in_range(context, port.id, e, map@) {
                    lemma_mappers_in_range_prefix(context, port.id, e, map@, j + 1);
                }
                assert(!fill_in_range(adapter, device, port, e));
            }
            return (false, false);
        }
        if !created {
            proof {
                let t = add_mappers(context, port.id, e, prefix)->Ok_0;
                assert(!(add_mapper(context, PortId(0), e, map@[j as int]) is Ok));
                lemma_add_mapper_ok_any(context, PortId(0), port.id, e, t, map@[j as int]);
                assert(add_mapper(context, port.id, t, map@[j as int]) is Err);
                assert(add_mappers(context, port.id, e, map@.take(j + 1)) is Err);
                lemma_mappers_in_range_err(context, port.id, e, map@, j + 1);
                lemma_add_mappers_err(context, port.id, e, map@, j + 1);
            }
            return (true, false);
        }
        j = j + 1;
    }
    assert(map@.take(map@.len() as int) =~= map@);
    assert(mappers_in_range(TransformCreateContext { device, port, adapter }, port.id, empty_tables(), map@));
    assert(add_mappers(TransformCreateContext { device, port, adapter }, port.id, empty_tables(), map@) is Ok);
    (true, true)
}

/// Whether plugging `device` into `ports` through `adapter` reads only
/// codes in range (`plug_in_range`).
pub fn codes_in_range(adapter: &Adapter, device: &Device, ports: &[&Port]) -> (r: bool)
    ensures
        r == plug_in_range(adapter, device, ports@),
{
    assert(ports@.take(0) =~= Seq::<&Port>::empty());
    let mut i: usize = 0;
    while i < ports.len()
        invariant
            i <= ports@.len(),
            plug_in_range(adapter, device, ports@.take(i as int)),
            spec_tables(adapter, device, ports@.take(i as int)) is Ok,
        decreases ports@.len() - i,
    {
        let ghost prefix = ports@.take(i as int);
        let ghost next = ports@.take(i + 1);
        assert(next.drop_last() =~= prefix);
        assert(next.last() == ports@[i as int]);
        let (in_range, fills) = port_codes(adapter, device, ports[i]);
        proof {
            let t = spec_tables(adapter, device, prefix)->Ok_0;
            lemma_fill_ok(adapter, device, ports@[i as int], t, empty_tables());
            assert(spec_tables(adapter, device, next) == try_fold(empty_tables(), next, |t: TablesView, p: &Port| spec_fill(adapter, device, p, t)));
            assert(spec_tables(adapter, device, prefix) == try_fold(empty_tables(), prefix, |t: TablesView, p: &Port| spec_fill(adapter, device, p, t)));
        }
        if !in_range {
            proof {
                if plug_in_range(adapter, device, ports@) {
                    lemma_plug_in_range_prefix(adapter, device, ports@, i + 1);
                }
            }
            return false;
        }
        if !fills {
            proof {
                lemma_plug_in_range_err(adapter, device, ports@, i + 1);
            }
            return true;
        }
        i = i + 1;
    }
    assert(ports@.take(ports@.len() as int) =~= ports@);
    true
}

} // verus!
