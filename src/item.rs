//! What a reader produces, and how reading can fail.

use vstd::prelude::*;

verus! {

/// The three workbook shapes, each read by its own reader.
#[derive(Clone, Copy, Debug, PartialEq, Eq, Structural)]
pub enum Kind {
    SDTM,
    ADAM,
    TFL,
}

/// One dataset or output to generate programs for.
#[derive(Clone, Debug)]
pub struct ConfigItem {
    pub name: String,
    pub supp: bool,
    pub qc_required: bool,
}

pub struct ConfigItemView {
    pub name: Seq<char>,
    pub supp: bool,
    pub qc_required: bool,
}

impl View for ConfigItem {
    type V = ConfigItemView;

    open spec fn view(&self) -> ConfigItemView {
        ConfigItemView { name: self.name@, supp: self.supp, qc_required: self.qc_required }
    }
}

pub open spec fn items_view(items: Seq<ConfigItem>) -> Seq<ConfigItemView> {
    items.map_values(|i: ConfigItem| i@)
}

/// The names of `items`, in order.
pub open spec fn names_of(items: Seq<ConfigItemView>) -> Seq<Seq<char>> {
    items.map_values(|item: ConfigItemView| item.name)
}

/// `items` without the ones whose name an earlier item already has.
pub open spec fn first_of_each_name(items: Seq<ConfigItemView>) -> Seq<ConfigItemView>
    decreases items.len(),
{
    if items.len() == 0 {
        items
    } else {
        let kept = first_of_each_name(items.drop_last());
        if names_of(items.drop_last()).contains(items.last().name) {
            kept
        } else {
            kept.push(items.last())
        }
    }
}

/// `names` without the ones that occur earlier.
pub open spec fn first_of_each(names: Seq<Seq<char>>) -> Seq<Seq<char>>
    decreases names.len(),
{
    if names.len() == 0 {
        names
    } else {
        let kept = first_of_each(names.drop_last());
        if names.drop_last().contains(names.last()) {
            kept
        } else {
            kept.push(names.last())
        }
    }
}

/// Keeping the first item of each name keeps every name once, and keeps
/// only items of the list.
pub proof fn lemma_first_of_each_name(items: Seq<ConfigItemView>)
    ensures
        names_of(first_of_each_name(items)).no_duplicates(),
        forall|n: Seq<char>|
            names_of(first_of_each_name(items)).contains(n) <==> names_of(items).contains(n),
        forall|x: ConfigItemView| first_of_each_name(items).contains(x) ==> items.contains(x),
        names_of(first_of_each_name(items)) == first_of_each(names_of(items)),
    decreases items.len(),
{
    if items.len() > 0 {
        let init = items.drop_last();
        lemma_first_of_each_name(init);
        let kept = first_of_each_name(init);
        assert(names_of(init) =~= names_of(items).drop_last());
        assert forall|n: Seq<char>| names_of(items).contains(n) <==> (names_of(init).contains(n)
            || n == items.last().name) by {
            if names_of(items).contains(n) {
                let k = choose|k: int| 0 <= k < names_of(items).len() && names_of(items)[k] == n;
                if k < items.len() - 1 {
                    assert(names_of(init)[k] == n);
                }
            }
            if names_of(init).contains(n) {
                let k = choose|k: int| 0 <= k < names_of(init).len() && names_of(init)[k] == n;
                assert(names_of(items)[k] == n);
            }
            if n == items.last().name {
                assert(names_of(items)[items.len() - 1] == n);
            }
        }
        assert forall|x: ConfigItemView| kept.contains(x) implies items.contains(x) by {
            assert(init.contains(x));
            let k = choose|k: int| 0 <= k < init.len() && init[k] == x;
            assert(items[k] == x);
        }
        if !names_of(init).contains(items.last().name) {
            let pushed = kept.push(items.last());
            assert(names_of(pushed) =~= names_of(kept).push(items.last().name));
            assert forall|n: Seq<char>| names_of(pushed).contains(n) <==> (names_of(kept).contains(n)
                || n == items.last().name) by {
                if names_of(pushed).contains(n) {
                    let k = choose|k: int| 0 <= k < names_of(pushed).len() && names_of(pushed)[k] == n;
                    if k < kept.len() {
                        assert(names_of(kept)[k] == n);
                    }
                }
                if names_of(kept).contains(n) {
                    let k = choose|k: int| 0 <= k < names_of(kept).len() && names_of(kept)[k] == n;
                    assert(names_of(pushed)[k] == n);
                }
                if n == items.last().name {
                    assert(names_of(pushed)[kept.len() as int] == n);
                }
            }
            assert forall|x: ConfigItemView| pushed.contains(x) implies items.contains(x) by {
                let k = choose|k: int| 0 <= k < pushed.len() && pushed[k] == x;
                if k < kept.len() {
                    assert(kept.contains(x));
                } else {
                    assert(items[items.len() - 1] == x);
                }
            }
        }
    }
}

/// The first item of each name, in order.
pub fn keep_first_of_each_name(items: Vec<ConfigItem>) -> (r: Vec<ConfigItem>)
    ensures
        items_view(r@) == first_of_each_name(items_view(items@)),
        names_of(items_view(r@)).no_duplicates(),
{
    let ghost all = items_view(items@);
    let mut out: Vec<ConfigItem> = Vec::new();
    let mut i: usize = 0;
    assert(all.take(0) =~= Seq::<ConfigItemView>::empty());
    while i < items.len()
        invariant
            i <= items@.len(),
            all == items_view(items@),
            items_view(out@) == first_of_each_name(all.take(i as int)),
        decreases items@.len() - i,
    {
        let item = &items[i];
        let ghost prefix = all.take(i as int);
        assert(all.take(i + 1).drop_last() =~= prefix);
        assert(all.take(i + 1).last() == item@);
        proof {
            lemma_first_of_each_name(prefix);
        }
        let mut seen = false;
        let mut j: usize = 0;
        while j < out.len()
            invariant
                j <= out@.len(),
                items_view(out@) == first_of_each_name(prefix),
                seen ==> names_of(items_view(out@)).contains(item.name@),
                !seen ==> forall|k: int| 0 <= k < j ==> names_of(items_view(out@))[k] != item.name@,
            decreases out@.len() - j,
        {
            if out[j].name == item.name {
                assert(names_of(items_view(out@))[j as int] == item.name@);
                seen = true;
            }
            j = j + 1;
        }
        assert(seen == names_of(prefix).contains(item.name@));
        if !seen {
            let ghost before = items_view(out@);
            out.push(ConfigItem { name: item.name.clone(), supp: item.supp, qc_required: item.qc_required });
            assert(items_view(out@) =~= before.push(item@));
        }
        i = i + 1;
    }
    assert(all.take(items@.len() as int) =~= all);
    proof {
        lemma_first_of_each_name(all);
    }
    out
}

/// Who works on a task; the task is `<output-name>|dev` or `<output-name>|qc`.
#[derive(Clone, Debug)]
pub struct Assignment {
    pub developer: String,
    pub task: String,
}

pub struct AssignmentView {
    pub developer: Seq<char>,
    pub task: Seq<char>,
}

impl View for Assignment {
    type V = AssignmentView;

    open spec fn view(&self) -> AssignmentView {
        AssignmentView { developer: self.developer@, task: self.task@ }
    }
}

pub open spec fn assignments_view(v: Seq<Assignment>) -> Seq<AssignmentView> {
    v.map_values(|a: Assignment| a@)
}

/// An output name that breaks the naming rules, with the reason.
#[derive(Clone, Debug)]
pub struct OutputError {
    pub item: String,
    pub message: String,
}

pub struct OutputErrorView {
    pub item: Seq<char>,
    pub message: Seq<char>,
}

impl View for OutputError {
    type V = OutputErrorView;

    open spec fn view(&self) -> OutputErrorView {
        OutputErrorView { item: self.item@, message: self.message@ }
    }
}

pub open spec fn output_errors_view(errors: Seq<OutputError>) -> Seq<OutputErrorView> {
    errors.map_values(|e: OutputError| e@)
}

/// Why a workbook could not be read.
#[derive(Clone, Debug)]
pub enum ReadError {
    /// A sheet that the layout requires is not in the workbook.
    MissingSheet(String),
    /// A cell that must hold text holds something else.
    CellDecode { sheet: String, row: usize, column: usize },
    /// Output names that break the naming rules, all of them, in sheet order.
    Naming(Vec<OutputError>),
}

pub enum ReadErrorView {
    MissingSheet(Seq<char>),
    CellDecode { sheet: Seq<char>, row: int, column: int },
    Naming(Seq<OutputErrorView>),
}

impl View for ReadError {
    type V = ReadErrorView;

    open spec fn view(&self) -> ReadErrorView {
        match self {
            ReadError::MissingSheet(s) => ReadErrorView::MissingSheet(s@),
            ReadError::CellDecode { sheet, row, column } => ReadErrorView::CellDecode {
                sheet: sheet@,
                row: *row as int,
                column: *column as int,
            },
            ReadError::Naming(v) => ReadErrorView::Naming(output_errors_view(v@)),
        }
    }
}

/// The outcome of a read, as values.
pub open spec fn read_view(r: Result<Vec<ConfigItem>, ReadError>) -> Result<
    Seq<ConfigItemView>,
    ReadErrorView,
> {
    match r {
        Ok(items) => Ok(items_view(items@)),
        Err(e) => Err(e@),
    }
}

/// Whether a successful read gives every name once.
pub open spec fn unique_names(r: Result<Vec<ConfigItem>, ReadError>) -> bool {
    r is Ok ==> names_of(items_view(r->Ok_0@)).no_duplicates()
}

/// `acc` in front of the items of `r`, or the error of `r`.
pub open spec fn prepend<T, E>(acc: Seq<T>, r: Result<Seq<T>, E>) -> Result<Seq<T>, E> {
    match r {
        Ok(rest) => Ok(acc + rest),
        Err(e) => Err(e),
    }
}

pub proof fn lemma_prepend_empty<T, E>(r: Result<Seq<T>, E>)
    ensures
        prepend(Seq::<T>::empty(), r) == r,
{
    match r {
        Ok(rest) => {
            assert(Seq::<T>::empty() + rest =~= rest);
        },
        Err(_) => {},
    }
}

pub proof fn lemma_prepend_prepend<T, E>(a: Seq<T>, b: Seq<T>, r: Result<Seq<T>, E>)
    ensures
        prepend(a, prepend(b, r)) == prepend(a + b, r),
{
    match r {
        Ok(rest) => {
            assert(a + (b + rest) =~= (a + b) + rest);
        },
        Err(_) => {},
    }
}

} // verus!
