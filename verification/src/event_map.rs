//! The events that the grid module answers, their numbers on the wire, and
//! the handler that answers each.
use vstd::prelude::*;
use vstd::string::StringExecFns;

verus! {

/// An event that a client sends to the grid module.
#[derive(Clone, Copy, PartialEq, Eq, Structural, Debug, Hash)]
pub enum GridEvent {
    GetGridData,
    GetGridBlocks,
    GetFields,
    UpdateField,
    CreateField,
    DeleteField,
    SwitchToField,
    DuplicateField,
    GetEditFieldContext,
    CreateSelectOption,
    GetSelectOptions,
    CreateRow,
    GetRow,
    UpdateCell,
    InsertSelectOption,
}

/// The number that stands for an event on the wire.
pub open spec fn event_value(event: GridEvent) -> i32 {
    match event {
        GridEvent::GetGridData => 0i32,
        GridEvent::GetGridBlocks => 1i32,
        GridEvent::GetFields => 10i32,
        GridEvent::UpdateField => 11i32,
        GridEvent::CreateField => 12i32,
        GridEvent::DeleteField => 13i32,
        GridEvent::SwitchToField => 14i32,
        GridEvent::DuplicateField => 15i32,
        GridEvent::GetEditFieldContext => 16i32,
        GridEvent::CreateSelectOption => 30i32,
        GridEvent::GetSelectOptions => 31i32,
        GridEvent::CreateRow => 50i32,
        GridEvent::GetRow => 51i32,
        GridEvent::UpdateCell => 70i32,
        GridEvent::InsertSelectOption => 71i32,
    }
}

impl GridEvent {
    /// The number that stands for the event on the wire.
    pub fn value(&self) -> (v: i32)
        ensures
            v == event_value(*self),
    {
        match self {
            GridEvent::GetGridData => 0,
            GridEvent::GetGridBlocks => 1,
            GridEvent::GetFields => 10,
            GridEvent::UpdateField => 11,
            GridEvent::CreateField => 12,
            GridEvent::DeleteField => 13,
            GridEvent::SwitchToField => 14,
            GridEvent::DuplicateField => 15,
            GridEvent::GetEditFieldContext => 16,
            GridEvent::CreateSelectOption => 30,
            GridEvent::GetSelectOptions => 31,
            GridEvent::CreateRow => 50,
            GridEvent::GetRow => 51,
            GridEvent::UpdateCell => 70,
            GridEvent::InsertSelectOption => 71,
        }
    }

    /// The event that a number stands for; none where no event has it.
    pub fn from_i32(v: i32) -> (event: Option<GridEvent>)
        ensures
            match event {
                Some(e) => event_value(e) == v,
                None => forall|e: GridEvent| event_value(e) != v,
            },
    {
        if v == 0 {
            Some(GridEvent::GetGridData)
        } else if v == 1 {
            Some(GridEvent::GetGridBlocks)
        } else if v == 10 {
            Some(GridEvent::GetFields)
        } else if v == 11 {
            Some(GridEvent::UpdateField)
        } else if v == 12 {
            Some(GridEvent::CreateField)
        } else if v == 13 {
            Some(GridEvent::DeleteField)
        } else if v == 14 {
            Some(GridEvent::SwitchToField)
        } else if v == 15 {
            Some(GridEvent::DuplicateField)
        } else if v == 16 {
            Some(GridEvent::GetEditFieldContext)
        } else if v == 30 {
            Some(GridEvent::CreateSelectOption)
        } else if v == 31 {
            Some(GridEvent::GetSelectOptions)
        } else if v == 50 {
            Some(GridEvent::CreateRow)
        } else if v == 51 {
            Some(GridEvent::GetRow)
        } else if v == 70 {
            Some(GridEvent::UpdateCell)
        } else if v == 71 {
            Some(GridEvent::InsertSelectOption)
        } else {
            None
        }
    }
}

/// The handler that answers an event.
#[derive(Clone, Copy, PartialEq, Eq, Structural, Debug)]
pub enum GridEventHandler {
    GetGridData,
    GetGridBlocks,
    GetFields,
    UpdateField,
    CreateField,
    DeleteField,
    SwitchToField,
    DuplicateField,
    GetFieldContext,
    CreateSelectOption,
    CreateRow,
    GetRow,
    UpdateCell,
    InsertSelectOption,
}

/// The events of the grid module with their handlers, in the order in which
/// they are registered. Getting the select options of a field has no
/// handler.
pub open spec fn grid_event_table() -> Seq<(GridEvent, GridEventHandler)> {
    seq![
        (GridEvent::GetGridData, GridEventHandler::GetGridData),
        (GridEvent::GetGridBlocks, GridEventHandler::GetGridBlocks),
        (GridEvent::GetFields, GridEventHandler::GetFields),
        (GridEvent::UpdateField, GridEventHandler::UpdateField),
        (GridEvent::CreateField, GridEventHandler::CreateField),
        (GridEvent::DeleteField, GridEventHandler::DeleteField),
        (GridEvent::SwitchToField, GridEventHandler::SwitchToField),
        (GridEvent::DuplicateField, GridEventHandler::DuplicateField),
        (GridEvent::GetEditFieldContext, GridEventHandler::GetFieldContext),
        (GridEvent::CreateSelectOption, GridEventHandler::CreateSelectOption),
        (GridEvent::CreateRow, GridEventHandler::CreateRow),
        (GridEvent::GetRow, GridEventHandler::GetRow),
        (GridEvent::UpdateCell, GridEventHandler::UpdateCell),
        (GridEvent::InsertSelectOption, GridEventHandler::InsertSelectOption),
    ]
}

/// The grid module: its name, the data that its handlers share, and its
/// events with their handlers, in the order in which they are registered.
#[derive(Debug)]
pub struct GridEventModule<D> {
    pub name: String,
    pub data: D,
    pub events: Vec<(GridEvent, GridEventHandler)>,
}

/// The grid module, named after the grid's package, with the grid manager as
/// the data that its handlers share, and its events with their handlers.
pub fn create<D>(grid_manager: D) -> (module: GridEventModule<D>)
    ensures
        module.name@ == "flowy-grid"@,
        module.data == grid_manager,
        module.events@ == grid_event_table(),
{
    let mut events: Vec<(GridEvent, GridEventHandler)> = Vec::new();
    events.push((GridEvent::GetGridData, GridEventHandler::GetGridData));
    events.push((GridEvent::GetGridBlocks, GridEventHandler::GetGridBlocks));
    events.push((GridEvent::GetFields, GridEventHandler::GetFields));
    events.push((GridEvent::UpdateField, GridEventHandler::UpdateField));
    events.push((GridEvent::CreateField, GridEventHandler::CreateField));
    events.push((GridEvent::DeleteField, GridEventHandler::DeleteField));
    events.push((GridEvent::SwitchToField, GridEventHandler::SwitchToField));
    events.push((GridEvent::DuplicateField, GridEventHandler::DuplicateField));
    events.push((GridEvent::GetEditFieldContext, GridEventHandler::GetFieldContext));
    events.push((GridEvent::CreateSelectOption, GridEventHandler::CreateSelectOption));
    events.push((GridEvent::CreateRow, GridEventHandler::CreateRow));
    events.push((GridEvent::GetRow, GridEventHandler::GetRow));
    events.push((GridEvent::UpdateCell, GridEventHandler::UpdateCell));
    events.push((GridEvent::InsertSelectOption, GridEventHandler::InsertSelectOption));
    assert(events@ =~= grid_event_table());
    GridEventModule { name: String::from_str("flowy-grid"), data: grid_manager, events }
}

/// The handler that a table gives an event: that of its first entry for the
/// event.
pub open spec fn handler_in(table: Seq<(GridEvent, GridEventHandler)>, event: GridEvent) -> Option<GridEventHandler>
    decreases table.len(),
{
    if table.len() == 0 {
        None
    } else if table[0].0 == event {
        Some(table[0].1)
    } else {
        handler_in(table.drop_first(), event)
    }
}

/// The handler that a table gives an event: that of its first entry for the
/// event.
pub fn handler_for(events: &Vec<(GridEvent, GridEventHandler)>, event: GridEvent) -> (handler: Option<GridEventHandler>)
    ensures
        handler == handler_in(events@, event),
{
    let mut i: usize = 0;
    assert(events@.subrange(0, events@.len() as int) =~= events@);
    while i < events.len()
        invariant
            i <= events@.len(),
                    handler_in(events@, event) == handler_in(events@.subrange(i as int, events@.len() as int), event),
        decreases events.len() - i,
    {
        let ghost rest = events@.subrange(i as int, events@.len() as int);
        assert(rest.drop_first() =~= events@.subrange(i as int + 1, events@.len() as int));
        assert(rest[0] == events@[i as int]);
        if events[i].0 == event {
            return Some(events[i].1);
        }
        i = i + 1;
    }
    assert(events@.subrange(i as int, events@.len() as int) =~= Seq::<(GridEvent, GridEventHandler)>::empty());
    None
}

} // verus!
