//! Expands configuration items into the programs to generate: one descriptor
//! per item that the requested group keeps, in item order.

use vstd::prelude::*;
use vstd::string::StringSliceAdditionalSpecFns;
use vstd::utf8::{decode_utf8, encode_utf8, is_char_boundary};
use crate::item::{
    names_of, assignments_view, items_view, prepend, Assignment, AssignmentView, ConfigItem,
    ConfigItemView, Kind, ReadError, ReadErrorView,
};
use crate::reader::{kind_read, new_reader, ConfigReader};
use crate::render::{strings_view, Item, ItemView, Render};
use crate::text::{concat, pad, pad_right, replace, replace_char, strip_prefix, to_uppercase, upper_of};
use crate::top::{task_key, DEV_TASK, QC_TASK};
use crate::workbook::Workbook;

verus! {

broadcast use vstd::utf8::encode_utf8_decode_utf8;

/// Which program of an item to generate: the developer's, or the independent
/// QC program.
#[derive(Clone, Copy, Debug, PartialEq, Eq, Structural)]
pub enum Group {
    Dev,
    Qc,
}

/// What one generation run is asked for.
#[derive(Clone, Debug)]
pub struct Param {
    pub study: String,
    pub engine: String,
    pub group: Group,
    pub custom_code: Vec<String>,
    pub path: String,
    pub template: String,
}

pub struct ParamView {
    pub study: Seq<char>,
    pub engine: Seq<char>,
    pub group: Group,
    pub custom_code: Seq<Seq<char>>,
    pub path: Seq<char>,
    pub template: Seq<char>,
}

impl View for Param {
    type V = ParamView;

    open spec fn view(&self) -> ParamView {
        ParamView {
            study: self.study@,
            engine: self.engine@,
            group: self.group,
            custom_code: strings_view(self.custom_code@),
            path: self.path@,
            template: self.template@,
        }
    }
}

/// The file of one item, and whether it was there before the run.
#[derive(Clone, Debug)]
pub struct FileResult {
    pub name: String,
    pub existed: bool,
}

pub struct FileResultView {
    pub name: Seq<char>,
    pub existed: bool,
}

impl View for FileResult {
    type V = FileResultView;

    open spec fn view(&self) -> FileResultView {
        FileResultView { name: self.name@, existed: self.existed }
    }
}

/// One program to generate: its file, and the fields of its template. A file
/// that existed before is left as it is.
#[derive(Clone, Debug)]
pub struct Rendering {
    pub file: FileResult,
    pub item: Item,
}

pub struct RenderingView {
    pub file: FileResultView,
    pub item: ItemView,
}

impl View for Rendering {
    type V = RenderingView;

    open spec fn view(&self) -> RenderingView {
        RenderingView { file: self.file@, item: self.item@ }
    }
}

pub open spec fn renderings_view(v: Seq<Rendering>) -> Seq<RenderingView> {
    v.map_values(|r: Rendering| r@)
}

/// Why a run could not be planned.
#[derive(Clone, Debug)]
pub enum GenerateError {
    /// The part of an output name after its two-character prefix is not text
    /// on its own.
    Decode(String),
}

pub enum GenerateErrorView {
    Decode(Seq<char>),
}

impl View for GenerateError {
    type V = GenerateErrorView;

    open spec fn view(&self) -> GenerateErrorView {
        match self {
            GenerateError::Decode(s) => GenerateErrorView::Decode(s@),
        }
    }
}

/// The width of the developer field.
pub const DEVELOPER_WIDTH: usize = 27;

/// The description that every descriptor carries.
pub const DESCRIPTION: &'static str = "Create";

/// The extension of a generated program.
pub const EXTENSION: &'static str = ".sas";

/// The prefix of a QC program's file name.
pub const QC_FILE_PREFIX: &'static str = "v-";

/// The verb of the purpose text.
pub open spec fn action(group: Group) -> Seq<char> {
    match group {
        Group::Dev => "To Create"@,
        Group::Qc => "To Qc"@,
    }
}

/// The file name of an item's program.
pub open spec fn filename_of(name: Seq<char>, group: Group) -> Seq<char> {
    match group {
        Group::Dev => name + EXTENSION@,
        Group::Qc => QC_FILE_PREFIX@ + name + EXTENSION@,
    }
}

/// The kind of output that an output name stands for.
pub open spec fn output_type(name: Seq<char>) -> Seq<char> {
    if "t"@.is_prefix_of(name) {
        "table"@
    } else if "f"@.is_prefix_of(name) {
        "figure"@
    } else {
        "listing"@
    }
}

/// The number of an output: what follows the first two bytes of its name,
/// with hyphens turned into periods; none where those two bytes do not end on
/// a character.
pub open spec fn output_number(name: Seq<char>) -> Option<Seq<char>> {
    let bytes = encode_utf8(name);
    if bytes.len() >= 2 && is_char_boundary(bytes, 2) {
        Some(replace_char(decode_utf8(bytes.skip(2)), '-', '.'))
    } else {
        None
    }
}

/// The purpose text of an item's program.
pub open spec fn purpose_of(name: Seq<char>, group: Group, kind: Kind) -> Option<Seq<char>> {
    match kind {
        Kind::SDTM => Some(action(group) + " "@ + "SDTM."@ + upper_of(name) + " dataset"@),
        Kind::ADAM => Some(action(group) + " "@ + "ADAM."@ + upper_of(name) + " dataset"@),
        Kind::TFL => match output_number(name) {
            Some(n) => Some(action(group) + " "@ + output_type(name) + " "@ + n),
            None => None,
        },
    }
}

/// The developer of the task under the last assignment for it.
pub open spec fn assigned_to(a: Seq<AssignmentView>, task: Seq<char>) -> Option<Seq<char>>
    decreases a.len(),
{
    if a.len() == 0 {
        None
    } else if a.last().task == task {
        Some(a.last().developer)
    } else {
        assigned_to(a.drop_last(), task)
    }
}

/// The task key suffix of a group.
pub open spec fn role(group: Group) -> Seq<char> {
    match group {
        Group::Dev => DEV_TASK@,
        Group::Qc => QC_TASK@,
    }
}

/// The developer field of an item's descriptor: the assigned developer, or a
/// blank, padded to the field width.
pub open spec fn developer_of(
    assignment: Option<Seq<AssignmentView>>,
    name: Seq<char>,
    group: Group,
) -> Seq<char> {
    let who = match assignment {
        Some(a) => match assigned_to(a, task_key(name, role(group))) {
            Some(d) => d,
            None => " "@,
        },
        None => " "@,
    };
    pad_right(who, DEVELOPER_WIDTH as nat)
}

/// Whether a run for `group` generates a program for `item`: a QC run skips
/// the items that need no QC.
pub open spec fn survives(item: ConfigItemView, group: Group) -> bool {
    !(group == Group::Qc && !item.qc_required)
}

/// Everything a run depends on besides the items.
pub struct RunView {
    pub kind: Kind,
    pub assignment: Option<Seq<AssignmentView>>,
    pub param: ParamView,
    pub start: Seq<char>,
    pub existing: Seq<Seq<char>>,
}

/// The program of one item in a run, if its purpose text can be derived.
pub open spec fn rendering_of(item: ConfigItemView, run: RunView) -> Option<RenderingView> {
    match purpose_of(item.name, run.param.group, run.kind) {
        None => None,
        Some(purpose) => {
            let file = filename_of(item.name, run.param.group);
            Some(
                RenderingView {
                    file: FileResultView { name: file, existed: run.existing.contains(file) },
                    item: ItemView {
                        name: item.name,
                        study: run.param.study,
                        engine: run.param.engine,
                        purpose,
                        start: run.start,
                        description: DESCRIPTION@,
                        supp: item.supp,
                        developer: developer_of(run.assignment, item.name, run.param.group),
                        slot: run.param.custom_code,
                        path: run.param.path,
                    },
                },
            )
        },
    }
}

/// The programs of a run over `items`, in item order; the run fails at the
/// first kept item whose purpose text cannot be derived.
pub open spec fn render_items(items: Seq<ConfigItemView>, run: RunView) -> Result<
    Seq<RenderingView>,
    GenerateErrorView,
>
    decreases items.len(),
{
    if items.len() == 0 {
        Ok(Seq::empty())
    } else if !survives(items[0], run.param.group) {
        render_items(items.drop_first(), run)
    } else {
        match rendering_of(items[0], run) {
            None => Err(GenerateErrorView::Decode(items[0].name)),
            Some(r) => prepend(seq![r], render_items(items.drop_first(), run)),
        }
    }
}

pub struct Generator {
    items: Vec<ConfigItem>,
    template: Render,
    kind: Kind,
    assignment: Option<Vec<Assignment>>,
}

pub struct GeneratorView {
    pub items: Seq<ConfigItemView>,
    pub kind: Kind,
    pub assignment: Option<Seq<AssignmentView>>,
}

impl View for Generator {
    type V = GeneratorView;

    closed spec fn view(&self) -> GeneratorView {
        GeneratorView {
            items: items_view(self.items@),
            kind: self.kind,
            assignment: match self.assignment {
                Some(a) => Some(assignments_view(a@)),
                None => None,
            },
        }
    }
}

/// The file name of an item's program.
pub fn filename(item: &str, group: &Group) -> (r: String)
    ensures
        r@ == filename_of(item@, *group),
{
    match group {
        Group::Dev => concat(item, EXTENSION),
        Group::Qc => {
            let prefixed = concat(QC_FILE_PREFIX, item);
            concat(prefixed.as_str(), EXTENSION)
        },
    }
}

/// The purpose text of an item's program; a decode error where the output
/// number cannot be cut out of the name.
pub fn purpose(item: &str, group: &Group, kind: &Kind) -> (r: Result<String, GenerateError>)
    ensures
        match r {
            Ok(s) => purpose_of(item@, *group, *kind) == Some(s@),
            Err(e) => purpose_of(item@, *group, *kind) is None && e@ == GenerateErrorView::Decode(
                item@,
            ),
        },
{
    let action = match group {
        Group::Dev => "To Create",
        Group::Qc => "To Qc",
    };
    let head = concat(action, " ");
    match kind {
        Kind::SDTM | Kind::ADAM => {
            let label = match kind {
                Kind::SDTM => "SDTM.",
                _ => "ADAM.",
            };
            let upper = to_uppercase(item);
            let s = concat(head.as_str(), label);
            let s = concat(s.as_str(), upper.as_str());
            Ok(concat(s.as_str(), " dataset"))
        },
        Kind::TFL => {
            let output_type = if strip_prefix(item, "t").is_some() {
                "table"
            } else if strip_prefix(item, "f").is_some() {
                "figure"
            } else {
                "listing"
            };
            if item.as_bytes().len() < 2 || !item.is_char_boundary(2) {
                return Err(GenerateError::Decode(item.to_owned()));
            }
            let (_, rest) = item.split_at(2);
            assert(rest.spec_bytes() =~= item.spec_bytes().skip(2));
            let number = replace(rest, '-', '.');
            let s = concat(head.as_str(), output_type);
            let s = concat(s.as_str(), " ");
            Ok(concat(s.as_str(), number.as_str()))
        },
    }
}

/// An item that needs no QC adds nothing to a QC run: the run is the same
/// without it.
pub proof fn lemma_qc_run_skips_item(items: Seq<ConfigItemView>, run: RunView, k: int)
    requires
        0 <= k < items.len(),
        run.param.group == Group::Qc,
        !items[k].qc_required,
    ensures
        render_items(items, run) == render_items(items.remove(k), run),
    decreases k,
{
    if k == 0 {
        assert(items.remove(0) =~= items.drop_first());
    } else {
        assert(items.remove(k).drop_first() =~= items.drop_first().remove(k - 1));
        assert(items.remove(k)[0] == items[0]);
        lemma_qc_run_skips_item(items.drop_first(), run, k - 1);
    }
}

/// A developer run generates a program for every item, QC or not.
pub proof fn lemma_dev_run_keeps_item(
    items: Seq<ConfigItemView>,
    run: RunView,
    rs: Seq<RenderingView>,
    k: int,
)
    requires
        0 <= k < items.len(),
        run.param.group == Group::Dev,
        render_items(items, run) == Ok::<Seq<RenderingView>, GenerateErrorView>(rs),
    ensures
        exists|j: int| 0 <= j < rs.len() && rs[j].file.name == filename_of(items[k].name, Group::Dev),
    decreases k,
{
    let r = rendering_of(items[0], run);
    let rest = render_items(items.drop_first(), run);
    assert(r is Some && rest is Ok);
    assert(rs == seq![r->0] + rest->Ok_0);
    if k == 0 {
        assert(rs[0].file.name == filename_of(items[0].name, Group::Dev));
    } else {
        lemma_dev_run_keeps_item(items.drop_first(), run, rest->Ok_0, k - 1);
        let j = choose|j: int|
            0 <= j < rest->Ok_0.len() && rest->Ok_0[j].file.name == filename_of(
                items.drop_first()[k - 1].name,
                Group::Dev,
            );
        assert(rs[j + 1] == rest->Ok_0[j]);
    }
}

/// Whether `name` is the file of some item of `items` that a run for
/// `group` keeps.
pub open spec fn file_of_kept_item(items: Seq<ConfigItemView>, group: Group, name: Seq<char>) -> bool {
    exists|m: int|
        0 <= m < items.len() && survives(items[m], group) && name == #[trigger] filename_of(
            items[m].name,
            group,
        )
}

proof fn lemma_render_origin(items: Seq<ConfigItemView>, run: RunView, rs: Seq<RenderingView>)
    requires
        render_items(items, run) == Ok::<Seq<RenderingView>, GenerateErrorView>(rs),
    ensures
        forall|j: int|
            0 <= j < rs.len() ==> file_of_kept_item(items, run.param.group, #[trigger] rs[j].file.name),
    decreases items.len(),
{
    let g = run.param.group;
    if items.len() > 0 {
        let tail = items.drop_first();
        if !survives(items[0], g) {
            lemma_render_origin(tail, run, rs);
            assert forall|j: int| 0 <= j < rs.len() implies file_of_kept_item(
                items,
                g,
                #[trigger] rs[j].file.name,
            ) by {
                assert(file_of_kept_item(tail, g, rs[j].file.name));
                let m = choose|m: int|
                    0 <= m < tail.len() && survives(tail[m], g) && rs[j].file.name
                        == #[trigger] filename_of(tail[m].name, g);
                assert(items[m + 1] == tail[m]);
                assert(filename_of(items[m + 1].name, g) == rs[j].file.name);
            }
        } else {
            let rest = render_items(tail, run)->Ok_0;
            assert(rs == seq![rendering_of(items[0], run)->0] + rest);
            lemma_render_origin(tail, run, rest);
            assert forall|j: int| 0 <= j < rs.len() implies file_of_kept_item(
                items,
                g,
                #[trigger] rs[j].file.name,
            ) by {
                if j == 0 {
                    assert(filename_of(items[0].name, g) == rs[0].file.name);
                } else {
                    assert(rs[j] == rest[j - 1]);
                    assert(file_of_kept_item(tail, g, rest[j - 1].file.name));
                    let m = choose|m: int|
                        0 <= m < tail.len() && survives(tail[m], g) && rest[j - 1].file.name
                            == #[trigger] filename_of(tail[m].name, g);
                    assert(items[m + 1] == tail[m]);
                    assert(filename_of(items[m + 1].name, g) == rs[j].file.name);
                }
            }
        }
    } else {
        assert(rs.len() == 0);
    }
}

proof fn lemma_filename_injective(a: Seq<char>, b: Seq<char>, group: Group)
    requires
        filename_of(a, group) == filename_of(b, group),
    ensures
        a == b,
{
    let p = QC_FILE_PREFIX@;
    let x = EXTENSION@;
    match group {
        Group::Dev => {
            assert((a + x).len() == (b + x).len());
            assert((a + x).subrange(0, a.len() as int) =~= a);
            assert((b + x).subrange(0, b.len() as int) =~= b);
        },
        Group::Qc => {
            assert((p + a + x).len() == (p + b + x).len());
            assert((p + a + x).subrange(p.len() as int, p.len() + a.len() as int) =~= a);
            assert((p + b + x).subrange(p.len() as int, p.len() + b.len() as int) =~= b);
        },
    }
}

/// Among items of distinct names, an item that needs no QC gets no file in a
/// QC run.
pub proof fn lemma_qc_run_has_no_file_for_item(
    items: Seq<ConfigItemView>,
    run: RunView,
    rs: Seq<RenderingView>,
    k: int,
)
    requires
        0 <= k < items.len(),
        run.param.group == Group::Qc,
        !items[k].qc_required,
        names_of(items).no_duplicates(),
        render_items(items, run) == Ok::<Seq<RenderingView>, GenerateErrorView>(rs),
    ensures
        forall|j: int|
            0 <= j < rs.len() ==> (#[trigger] rs[j]).file.name != filename_of(
                items[k].name,
                Group::Qc,
            ),
{
    lemma_render_origin(items, run, rs);
    assert forall|j: int| 0 <= j < rs.len() implies (#[trigger] rs[j]).file.name != filename_of(
        items[k].name,
        Group::Qc,
    ) by {
        assert(file_of_kept_item(items, Group::Qc, rs[j].file.name));
        let m = choose|m: int|
            0 <= m < items.len() && survives(items[m], Group::Qc) && rs[j].file.name
                == #[trigger] filename_of(items[m].name, Group::Qc);
        if rs[j].file.name == filename_of(items[k].name, Group::Qc) {
            lemma_filename_injective(items[m].name, items[k].name, Group::Qc);
            assert(names_of(items)[m] == names_of(items)[k]);
        }
    }
}

/// `run` with the destination holding `existing`.
pub open spec fn with_existing(run: RunView, existing: Seq<Seq<char>>) -> RunView {
    RunView {
        kind: run.kind,
        assignment: run.assignment,
        param: run.param,
        start: run.start,
        existing,
    }
}

proof fn lemma_rerun_finds(
    items: Seq<ConfigItemView>,
    run: RunView,
    rs: Seq<RenderingView>,
    existing: Seq<Seq<char>>,
)
    requires
        render_items(items, run) == Ok::<Seq<RenderingView>, GenerateErrorView>(rs),
        forall|j: int| 0 <= j < rs.len() ==> existing.contains(#[trigger] rs[j].file.name),
    ensures
        render_items(items, with_existing(run, existing)) is Ok,
        render_items(items, with_existing(run, existing))->Ok_0.len() == rs.len(),
        forall|j: int|
            0 <= j < rs.len() ==> {
                let r = #[trigger] render_items(items, with_existing(run, existing))->Ok_0[j];
                r.file.existed && r.file.name == rs[j].file.name && r.item == rs[j].item
            },
    decreases items.len(),
{
    let run2 = with_existing(run, existing);
    if items.len() > 0 {
        if !survives(items[0], run.param.group) {
            lemma_rerun_finds(items.drop_first(), run, rs, existing);
        } else {
            let rest = render_items(items.drop_first(), run)->Ok_0;
            assert(rs == seq![rendering_of(items[0], run)->0] + rest);
            assert forall|j: int| 0 <= j < rest.len() implies existing.contains(
                #[trigger] rest[j].file.name,
            ) by {
                assert(rs[j + 1] == rest[j]);
            }
            lemma_rerun_finds(items.drop_first(), run, rest, existing);
            assert(existing.contains(rs[0].file.name));
            let rest2 = render_items(items.drop_first(), run2)->Ok_0;
            let all2 = render_items(items, run2)->Ok_0;
            assert(all2 == seq![rendering_of(items[0], run2)->0] + rest2);
            assert forall|j: int| 0 <= j < rs.len() implies {
                let r = #[trigger] all2[j];
                r.file.existed && r.file.name == rs[j].file.name && r.item == rs[j].item
            } by {
                if j > 0 {
                    assert(all2[j] == rest2[j - 1]);
                    assert(rs[j] == rest[j - 1]);
                }
            }
        }
    }
}

/// Rendering is write-once: a second run into the destination that the first
/// one filled finds every one of its files there already, so it writes none;
/// the programs it reports are those of the first run.
pub proof fn lemma_second_run_finds_all(
    items: Seq<ConfigItemView>,
    run: RunView,
    rs: Seq<RenderingView>,
)
    requires
        render_items(items, run) == Ok::<Seq<RenderingView>, GenerateErrorView>(rs),
    ensures
        ({
            let again = render_items(
                items,
                with_existing(run, run.existing + rs.map_values(|r: RenderingView| r.file.name)),
            );
            &&& again is Ok
            &&& again->Ok_0.len() == rs.len()
            &&& forall|j: int|
                0 <= j < rs.len() ==> (#[trigger] again->Ok_0[j]).file.existed
                    && again->Ok_0[j].file.name == rs[j].file.name && again->Ok_0[j].item
                    == rs[j].item
        }),
{
    let names = rs.map_values(|r: RenderingView| r.file.name);
    let existing = run.existing + names;
    assert forall|j: int| 0 <= j < rs.len() implies existing.contains(#[trigger] rs[j].file.name) by {
        assert(existing[run.existing.len() + j] == rs[j].file.name);
    }
    lemma_rerun_finds(items, run, rs, existing);
}

/// Write-once, for a generator: a run with `param` into a destination holding
/// `existing` plus the files of an earlier such run finds every one of them.
pub proof fn lemma_generator_second_run(
    g: GeneratorView,
    param: ParamView,
    start: Seq<char>,
    existing: Seq<Seq<char>>,
    rs: Seq<RenderingView>,
)
    requires
        render_items(g.items, run_of(g, param, start, existing)) == Ok::<
            Seq<RenderingView>,
            GenerateErrorView,
        >(rs),
    ensures
        ({
            let again = render_items(
                g.items,
                run_of(g, param, start, existing + rs.map_values(|r: RenderingView| r.file.name)),
            );
            &&& again is Ok
            &&& again->Ok_0.len() == rs.len()
            &&& forall|j: int|
                0 <= j < rs.len() ==> (#[trigger] again->Ok_0[j]).file.existed
                    && again->Ok_0[j].file.name == rs[j].file.name
        }),
{
    let run = run_of(g, param, start, existing);
    lemma_second_run_finds_all(g.items, run, rs);
    assert(run_of(g, param, start, existing + rs.map_values(|r: RenderingView| r.file.name))
        == with_existing(run, run.existing + rs.map_values(|r: RenderingView| r.file.name)));
}

/// What a run of `g` with `param`, started on `start`, into a destination
/// that already holds the files `existing`, depends on.
pub open spec fn run_of(
    g: GeneratorView,
    param: ParamView,
    start: Seq<char>,
    existing: Seq<Seq<char>>,
) -> RunView {
    RunView { kind: g.kind, assignment: g.assignment, param, start, existing }
}

/// The developer of `task` under the last assignment for it.
fn assigned<'a>(a: &'a Vec<Assignment>, task: &String) -> (r: Option<&'a String>)
    ensures
        match r {
            Some(d) => assigned_to(assignments_view(a@), task@) == Some(d@),
            None => assigned_to(assignments_view(a@), task@) is None,
        },
{
    let ghost all = assignments_view(a@);
    let mut i: usize = a.len();
    assert(all.take(i as int) =~= all);
    while i > 0
        invariant
            i <= a@.len(),
            all == assignments_view(a@),
            assigned_to(all, task@) == assigned_to(all.take(i as int), task@),
        decreases i,
    {
        assert(all.take(i as int).drop_last() =~= all.take(i - 1));
        if a[i - 1].task == *task {
            return Some(&a[i - 1].developer);
        }
        i = i - 1;
    }
    None
}

/// Whether `names` holds `name`.
fn holds(names: &Vec<String>, name: &String) -> (r: bool)
    ensures
        r == strings_view(names@).contains(name@),
{
    let mut i: usize = 0;
    while i < names.len()
        invariant
            i <= names@.len(),
            forall|k: int| 0 <= k < i ==> strings_view(names@)[k] != name@,
        decreases names@.len() - i,
    {
        if names[i] == *name {
            assert(strings_view(names@)[i as int] == name@);
            return true;
        }
        i = i + 1;
    }
    false
}

/// A copy of a list of strings.
fn copy_strings(v: &Vec<String>) -> (r: Vec<String>)
    ensures
        strings_view(r@) == strings_view(v@),
{
    let mut out: Vec<String> = Vec::new();
    let mut i: usize = 0;
    while i < v.len()
        invariant
            i <= v@.len(),
            strings_view(out@) =~= strings_view(v@).take(i as int),
        decreases v@.len() - i,
    {
        out.push(v[i].clone());
        assert(strings_view(v@).take(i + 1) =~= strings_view(v@).take(i as int).push(v@[i as int]@));
        i = i + 1;
    }
    assert(strings_view(v@).take(v@.len() as int) =~= strings_view(v@));
    out
}

impl Generator {
    /// Reads the items of a workbook of shape `kind`, with `assignment` as
    /// who works on which task (none at all when the list is empty).
    pub fn new(workbook: Workbook, kind: Kind, assignment: Vec<Assignment>, force: bool) -> (r: Result<
        Generator,
        ReadError,
    >)
        ensures
            match r {
                Ok(g) => {
                    &&& kind_read(kind, workbook@, force) == Ok::<
                        Seq<ConfigItemView>,
                        ReadErrorView,
                    >(g@.items)
                    &&& g@.kind == kind
                    &&& names_of(g@.items).no_duplicates()
                    &&& g@.assignment == if assignment@.len() > 0 {
                        Some(assignments_view(assignment@))
                    } else {
                        None
                    }
                },
                Err(e) => kind_read(kind, workbook@, force) == Err::<
                    Seq<ConfigItemView>,
                    ReadErrorView,
                >(e@),
            },
    {
        let reader = new_reader(&kind, workbook);
        let items = match reader.read(force) {
            Ok(v) => v,
            Err(e) => {
                return Err(e);
            },
        };
        let template = Render::new();
        let assignment = if assignment.len() > 0 {
            Some(assignment)
        } else {
            None
        };
        Ok(Generator { items, template, kind, assignment })
    }

    /// The developer field of an item's descriptor.
    fn developer(&self, name: &String, group: Group) -> (r: String)
        ensures
            r@ == developer_of(self@.assignment, name@, group),
    {
        let who = match &self.assignment {
            Some(a) => {
                let suffix = match group {
                    Group::Dev => DEV_TASK,
                    Group::Qc => QC_TASK,
                };
                let task = concat(name.as_str(), suffix);
                match assigned(a, &task) {
                    Some(d) => d.clone(),
                    None => " ".to_owned(),
                }
            },
            None => " ".to_owned(),
        };
        pad(who.as_str(), DEVELOPER_WIDTH)
    }

    /// The programs of a run with `param`, started on `start`, into a
    /// destination that already holds the files `existing`: one for each item
    /// that the group keeps, in item order. A program whose file is among
    /// `existing` is reported as existing, and is not to be written again.
    pub fn render(&self, param: &Param, start: &String, existing: &Vec<String>) -> (r: Result<
        Vec<Rendering>,
        GenerateError,
    >)
        ensures
            match r {
                Ok(v) => render_items(
                    self@.items,
                    run_of(self@, param@, start@, strings_view(existing@)),
                ) == Ok::<Seq<RenderingView>, GenerateErrorView>(renderings_view(v@)),
                Err(e) => render_items(
                    self@.items,
                    run_of(self@, param@, start@, strings_view(existing@)),
                ) == Err::<Seq<RenderingView>, GenerateErrorView>(e@),
            },
    {
        let ghost run = run_of(self@, param@, start@, strings_view(existing@));
        let ghost all = self@.items;
        let mut result: Vec<Rendering> = Vec::new();
        let mut i: usize = 0;
        assert(all.skip(0) =~= all);
        assert(Seq::<RenderingView>::empty() + renderings_view(result@) =~= renderings_view(
            result@,
        ));
        proof {
            crate::item::lemma_prepend_empty(render_items(all, run));
        }
        while i < self.items.len()
            invariant
                i <= self.items@.len(),
                all == self@.items,
                all == items_view(self.items@),
                run == run_of(self@, param@, start@, strings_view(existing@)),
                render_items(all, run) == prepend(
                    renderings_view(result@),
                    render_items(all.skip(i as int), run),
                ),
            decreases self.items@.len() - i,
        {
            let item = &self.items[i];
            let ghost rest = all.skip(i as int);
            assert(rest[0] == item@);
            assert(rest.drop_first() =~= all.skip(i + 1));
            if param.group == Group::Qc && !item.qc_required {
                i = i + 1;
                continue;
            }
            let purpose = match purpose(item.name.as_str(), &param.group, &self.kind) {
                Ok(p) => p,
                Err(e) => {
                    return Err(e);
                },
            };
            let developer = self.developer(&item.name, param.group);
            let name = filename(item.name.as_str(), &param.group);
            let existed = holds(existing, &name);
            let rendering = Rendering {
                file: FileResult { name, existed },
                item: Item {
                    name: item.name.clone(),
                    study: param.study.clone(),
                    engine: param.engine.clone(),
                    purpose,
                    start: start.clone(),
                    description: DESCRIPTION.to_owned(),
                    supp: item.supp,
                    developer,
                    slot: copy_strings(&param.custom_code),
                    path: param.path.clone(),
                },
            };
            assert(rendering_of(item@, run) == Some(rendering@));
            let ghost before = renderings_view(result@);
            proof {
                crate::item::lemma_prepend_prepend(
                    before,
                    seq![rendering@],
                    render_items(all.skip(i + 1), run),
                );
            }
            result.push(rendering);
            assert(renderings_view(result@) =~= before + seq![rendering@]);
            i = i + 1;
        }
        assert(all.skip(i as int) =~= Seq::<ConfigItemView>::empty());
        assert(renderings_view(result@) + Seq::<RenderingView>::empty() =~= renderings_view(
            result@,
        ));
        Ok(result)
    }
}

} // verus!
