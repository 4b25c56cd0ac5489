//! One interface, "extract the configuration items of a workbook", with a
//! reader for each of the three workbook shapes, picked by [`Kind`].

use vstd::prelude::*;
use crate::adam_spec::{adam_items, adam_read};
use crate::item::{
    unique_names, assignments_view, read_view, Assignment, AssignmentView, ConfigItem, ConfigItemView, Kind,
    ReadError, ReadErrorView,
};
use crate::sdtm_spec::{sdtm_items, sdtm_read};
use crate::top::{assignments, top_assignments, top_items, top_read};
use crate::workbook::{SheetView, Workbook};

verus! {

pub trait ConfigReader {
    /// What `read` gives.
    spec fn read_spec(&self, force: bool) -> Result<Seq<ConfigItemView>, ReadErrorView>;

    /// The configuration items of the workbook, each name once, in the order
    /// in which the names first occur. With `force`, a reader that checks
    /// output names returns the items even when some names break the rules.
    fn read(&self, force: bool) -> (r: Result<Vec<ConfigItem>, ReadError>)
        ensures
            read_view(r) == self.read_spec(force),
            unique_names(r),
    ;
}

/// What the reader for `kind` gives on workbook `wb`. Only the tracking sheet
/// reader consults `force`.
pub open spec fn kind_read(kind: Kind, wb: Seq<SheetView>, force: bool) -> Result<
    Seq<ConfigItemView>,
    ReadErrorView,
> {
    match kind {
        Kind::SDTM => sdtm_read(wb),
        Kind::ADAM => adam_read(wb),
        Kind::TFL => top_read(wb, force),
    }
}

pub struct SdtmSpecReader {
    workbook: Workbook,
}

impl View for SdtmSpecReader {
    type V = Seq<SheetView>;

    closed spec fn view(&self) -> Seq<SheetView> {
        self.workbook@
    }
}

impl SdtmSpecReader {
    pub fn new(workbook: Workbook) -> (r: SdtmSpecReader)
        ensures
            r@ == workbook@,
    {
        SdtmSpecReader { workbook }
    }
}

impl ConfigReader for SdtmSpecReader {
    open spec fn read_spec(&self, force: bool) -> Result<Seq<ConfigItemView>, ReadErrorView> {
        sdtm_read(self@)
    }

    fn read(&self, _force: bool) -> (r: Result<Vec<ConfigItem>, ReadError>) {
        sdtm_items(&self.workbook)
    }
}

pub struct AdamSpecReader {
    workbook: Workbook,
}

impl View for AdamSpecReader {
    type V = Seq<SheetView>;

    closed spec fn view(&self) -> Seq<SheetView> {
        self.workbook@
    }
}

impl AdamSpecReader {
    pub fn new(workbook: Workbook) -> (r: AdamSpecReader)
        ensures
            r@ == workbook@,
    {
        AdamSpecReader { workbook }
    }
}

impl ConfigReader for AdamSpecReader {
    open spec fn read_spec(&self, force: bool) -> Result<Seq<ConfigItemView>, ReadErrorView> {
        adam_read(self@)
    }

    fn read(&self, _force: bool) -> (r: Result<Vec<ConfigItem>, ReadError>) {
        adam_items(&self.workbook)
    }
}

pub struct TopReader {
    workbook: Workbook,
}

impl View for TopReader {
    type V = Seq<SheetView>;

    closed spec fn view(&self) -> Seq<SheetView> {
        self.workbook@
    }
}

impl TopReader {
    pub fn new(workbook: Workbook) -> (r: TopReader)
        ensures
            r@ == workbook@,
    {
        TopReader { workbook }
    }

    /// Who develops and who checks each output.
    pub fn assignement(&self) -> (r: Result<Vec<Assignment>, ReadError>)
        ensures
            match r {
                Ok(v) => top_assignments(self@) == Ok::<Seq<AssignmentView>, ReadErrorView>(
                    assignments_view(v@),
                ),
                Err(e) => top_assignments(self@) == Err::<Seq<AssignmentView>, ReadErrorView>(e@),
            },
    {
        assignments(&self.workbook)
    }
}

impl ConfigReader for TopReader {
    open spec fn read_spec(&self, force: bool) -> Result<Seq<ConfigItemView>, ReadErrorView> {
        top_read(self@, force)
    }

    fn read(&self, force: bool) -> (r: Result<Vec<ConfigItem>, ReadError>) {
        top_items(&self.workbook, force)
    }
}

/// The reader that [`new_reader`] picks.
pub enum SpecReader {
    Sdtm(SdtmSpecReader),
    Adam(AdamSpecReader),
    Top(TopReader),
}

impl ConfigReader for SpecReader {
    open spec fn read_spec(&self, force: bool) -> Result<Seq<ConfigItemView>, ReadErrorView> {
        match self {
            SpecReader::Sdtm(r) => r.read_spec(force),
            SpecReader::Adam(r) => r.read_spec(force),
            SpecReader::Top(r) => r.read_spec(force),
        }
    }

    fn read(&self, force: bool) -> (r: Result<Vec<ConfigItem>, ReadError>) {
        match self {
            SpecReader::Sdtm(r) => r.read(force),
            SpecReader::Adam(r) => r.read(force),
            SpecReader::Top(r) => r.read(force),
        }
    }
}

/// The reader for workbooks of shape `kind`.
pub fn new_reader(kind: &Kind, workbook: Workbook) -> (r: SpecReader)
    ensures
        forall|force: bool| #[trigger] r.read_spec(force) == kind_read(*kind, workbook@, force),
{
    match kind {
        Kind::SDTM => SpecReader::Sdtm(SdtmSpecReader::new(workbook)),
        Kind::ADAM => SpecReader::Adam(AdamSpecReader::new(workbook)),
        Kind::TFL => SpecReader::Top(TopReader::new(workbook)),
    }
}

/// Who develops and who checks each output of a tracking workbook.
pub fn read_assignment_from_top(workbook: &Workbook) -> (r: Result<Vec<Assignment>, ReadError>)
    ensures
        match r {
            Ok(v) => top_assignments(workbook@) == Ok::<Seq<AssignmentView>, ReadErrorView>(
                assignments_view(v@),
            ),
            Err(e) => top_assignments(workbook@) == Err::<Seq<AssignmentView>, ReadErrorView>(e@),
        },
{
    assignments(workbook)
}

} // verus!
