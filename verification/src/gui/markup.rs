//! Marking up a table: which columns are inputs and outputs, what is wrong
//! with the choice, and when it can be applied.

use crate::gui::page::{Action, Field, ItemView, Page};
use crate::schema::{ColumnRole, Ruling};
use crate::text::{decimal, decimal_text, is_empty, owned, trim, trimmed};
use vstd::prelude::*;
use vstd::string::StringExecFns;

verus! {

#[derive(Clone, Copy, Debug, PartialEq, Eq, Structural)]
pub enum Severity {
    Blocking,
    Warning,
    Note,
}

/// A remark on the data.
#[derive(Debug)]
pub struct Message {
    pub severity: Severity,
    pub text: String,
}

#[derive(Clone, Copy, Debug, PartialEq, Eq, Structural)]
pub enum DraftType {
    Numeric,
    Categorical,
}

/// A column as it is being marked up.
#[derive(Debug)]
pub struct DraftColumn {
    pub name: String,
    pub role: ColumnRole,
    pub ty: DraftType,
    pub unit: Option<String>,
    /// What the data of the column look like: see `data_summary`.
    pub data: String,
}

/// A table whose columns are being marked up.
#[derive(Debug)]
pub struct MarkupState {
    pub path: String,
    pub has_header: bool,
    pub rows: usize,
    pub columns: Vec<DraftColumn>,
    /// Remarks on the table itself.
    pub profile: Vec<Message>,
    /// Remarks that depend on the roles and types of the columns.
    pub report: Vec<Message>,
    /// What is wrong with the choice.
    pub issues: Vec<String>,
    /// Why applying the choice failed.
    pub apply_error: Option<String>,
}

/// The roles that a number of inputs suggests: the first columns are inputs,
/// the others outputs. A suggestion that leaves no input or no output, and no
/// suggestion at all, change nothing.
pub open spec fn suggested_role(role: ColumnRole, i: int, len: nat, inputs: Option<usize>) -> ColumnRole {
    match inputs {
        Some(n) => if 0 < n < len {
            if i < n {
                ColumnRole::Input
            } else {
                ColumnRole::Output
            }
        } else {
            role
        },
        None => role,
    }
}

pub open spec fn suggested_type(ty: DraftType, i: int, categories: Seq<usize>) -> DraftType {
    if 0 <= i <= usize::MAX && categories.contains(i as usize) {
        DraftType::Categorical
    } else {
        ty
    }
}

/// A column with another role and type.
pub open spec fn retyped(column: DraftColumn, role: ColumnRole, ty: DraftType) -> DraftColumn {
    DraftColumn { role, ty, ..column }
}

fn listed(list: &Vec<usize>, v: usize) -> (yes: bool)
    ensures
        yes == list@.contains(v),
{
    let mut i: usize = 0;
    while i < list.len()
        invariant
            i <= list.len(),
            forall|k: int| 0 <= k < i ==> list@[k] != v,
        decreases list.len() - i,
    {
        if list[i] == v {
            assert(list@[i as int] == v);
            return true;
        }
        i += 1;
    }
    false
}

impl MarkupState {
    /// Some remark on the table stands in the way.
    pub open spec fn blocked(self) -> bool {
        exists|i: int|
            0 <= i < self.profile@.len() && (#[trigger] self.profile@[i]).severity
                == Severity::Blocking
    }

    /// A freshly opened table. Suggestions only fill in the first roles and
    /// types; the choice stays with the user.
    pub fn new(
        path: String,
        has_header: bool,
        rows: usize,
        columns: Vec<DraftColumn>,
        profile: Vec<Message>,
        suggested_inputs: Option<usize>,
        suggested_categories: &Vec<usize>,
    ) -> (state: MarkupState)
        ensures
            state.path == path,
            state.has_header == has_header,
            state.rows == rows,
            state.profile == profile,
            state.columns@.len() == columns@.len(),
            forall|i: int|
                0 <= i < columns@.len() ==> #[trigger] state.columns@[i] == retyped(
                    columns@[i],
                    suggested_role(columns@[i].role, i, columns@.len(), suggested_inputs),
                    suggested_type(columns@[i].ty, i, suggested_categories@),
                ),
            state.report@.len() == 0,
            state.issues@.len() == 0,
            state.apply_error is None,
    {
        let mut columns: Vec<DraftColumn> = columns;
        let ghost start = columns@;
        let n: usize = columns.len();
        let mut i: usize = 0;
        while i < n
            invariant
                i <= n,
                n == columns.len(),
                n == start.len(),
                forall|k: int|
                    0 <= k < i ==> #[trigger] columns@[k] == retyped(
                        start[k],
                        suggested_role(start[k].role, k, start.len(), suggested_inputs),
                        suggested_type(start[k].ty, k, suggested_categories@),
                    ),
                forall|k: int| i <= k < n ==> #[trigger] columns@[k] == start[k],
            decreases n - i,
        {
            let mut role: ColumnRole = columns[i].role;
            if let Some(inputs) = suggested_inputs {
                if 0 < inputs && inputs < n {
                    role = if i < inputs {
                        ColumnRole::Input
                    } else {
                        ColumnRole::Output
                    };
                }
            }
            let mut ty: DraftType = columns[i].ty;
            if listed(suggested_categories, i) {
                ty = DraftType::Categorical;
            }
            let old_column: DraftColumn = columns.remove(i);
            let column: DraftColumn = DraftColumn { role, ty, ..old_column };
            columns.insert(i, column);
            i += 1;
        }
        MarkupState {
            path,
            has_header,
            rows,
            columns,
            profile,
            report: Vec::new(),
            issues: Vec::new(),
            apply_error: None,
        }
    }

    /// Roles or types changed, and the choice was looked at again.
    pub fn on_roles_changed(&mut self, report: Vec<Message>, issues: Vec<String>)
        ensures
            *final(self) == (MarkupState { report, issues, apply_error: None, ..*old(self) }),
    {
        self.report = report;
        self.issues = issues;
        self.apply_error = None;
    }

    /// Names or units changed: the report does not depend on them.
    pub fn on_any_change(&mut self, issues: Vec<String>)
        ensures
            *final(self) == (MarkupState { issues, apply_error: None, ..*old(self) }),
    {
        self.issues = issues;
        self.apply_error = None;
    }

    /// The first remark on the table that stands in the way.
    pub fn blocking_message(&self) -> (found: Option<usize>)
        ensures
            match found {
                Some(i) => i < self.profile@.len() && self.profile@[i as int].severity
                    == Severity::Blocking && forall|k: int|
                    0 <= k < i ==> (#[trigger] self.profile@[k]).severity != Severity::Blocking,
                None => !self.blocked(),
            },
    {
        let mut i: usize = 0;
        while i < self.profile.len()
            invariant
                i <= self.profile.len(),
                forall|k: int|
                    0 <= k < i ==> (#[trigger] self.profile@[k]).severity != Severity::Blocking,
            decreases self.profile.len() - i,
        {
            if self.profile[i].severity == Severity::Blocking {
                return Some(i);
            }
            i += 1;
        }
        None
    }

    pub open spec fn applicable(self) -> bool {
        self.issues@.len() == 0 && self.apply_error is None && !self.blocked()
    }

    pub fn can_apply(&self) -> (yes: bool)
        ensures
            yes == self.applicable(),
    {
        self.issues.len() == 0 && self.apply_error.is_none() && self.blocking_message().is_none()
    }

    /// What applying the choice comes to, given what building the dataset
    /// came to: a remark that stands in the way comes first.
    pub fn apply<T>(&self, built: Result<T, String>) -> (out: Result<T, String>)
        ensures
            match self.first_block() {
                Some(text) => out matches Err(e) && e@ == text,
                None => out == built,
            },
    {
        match self.blocking_message() {
            Some(i) => {
                proof {
                    lemma_first_block(*self, i as int);
                }
                Err(owned(self.profile[i].text.as_str()))
            },
            None => built,
        }
    }

    /// The text of the first remark that stands in the way.
    pub open spec fn first_block(self) -> Option<Seq<char>> {
        if self.blocked() {
            let i = choose|i: int|
                #![trigger self.profile@[i]]
                0 <= i < self.profile@.len() && self.profile@[i].severity == Severity::Blocking
                    && forall|k: int|
                    0 <= k < i ==> (#[trigger] self.profile@[k]).severity != Severity::Blocking;
            Some(self.profile@[i].text@)
        } else {
            None
        }
    }

    pub fn set_name(&mut self, i: usize, name: String)
        requires
            i < old(self).columns@.len(),
        ensures
            final(self).columns@ == old(self).columns@.update(
                i as int,
                DraftColumn { name, ..old(self).columns@[i as int] },
            ),
            *final(self) == (MarkupState { columns: final(self).columns, ..*old(self) }),
    {
        let column: DraftColumn = self.columns.remove(i);
        self.columns.insert(i, DraftColumn { name, ..column });
        assert(self.columns@ =~= old(self).columns@.update(
            i as int,
            DraftColumn { name, ..old(self).columns@[i as int] },
        ));
    }

    /// Whether the role is another one than before.
    pub fn set_role(&mut self, i: usize, role: ColumnRole) -> (changed: bool)
        requires
            i < old(self).columns@.len(),
        ensures
            changed == (role != old(self).columns@[i as int].role),
            final(self).columns@ == old(self).columns@.update(
                i as int,
                DraftColumn { role, ..old(self).columns@[i as int] },
            ),
            *final(self) == (MarkupState { columns: final(self).columns, ..*old(self) }),
    {
        let column: DraftColumn = self.columns.remove(i);
        let changed: bool = role != column.role;
        self.columns.insert(i, DraftColumn { role, ..column });
        assert(self.columns@ =~= old(self).columns@.update(
            i as int,
            DraftColumn { role, ..old(self).columns@[i as int] },
        ));
        changed
    }

    /// Whether the type is another one than before. A type that the rules for
    /// drafts refuse is not taken; why is kept as what stands in the way.
    pub fn set_type(&mut self, i: usize, ty: DraftType, ruling: Ruling) -> (changed: bool)
        requires
            i < old(self).columns@.len(),
        ensures
            if ty == old(self).columns@[i as int].ty {
                !changed && *final(self) == *old(self)
            } else {
                match ruling {
                    Ok(()) => {
                        &&& changed
                        &&& final(self).columns@ == old(self).columns@.update(
                            i as int,
                            DraftColumn { ty, ..old(self).columns@[i as int] },
                        )
                        &&& *final(self) == (MarkupState {
                            columns: final(self).columns,
                            ..*old(self)
                        })
                    },
                    Err(e) => !changed && *final(self) == (MarkupState {
                        apply_error: Some(e),
                        ..*old(self)
                    }),
                }
            },
    {
        if ty == self.columns[i].ty {
            return false;
        }
        match ruling {
            Ok(()) => {
                let column: DraftColumn = self.columns.remove(i);
                self.columns.insert(i, DraftColumn { ty, ..column });
                assert(self.columns@ =~= old(self).columns@.update(
                    i as int,
                    DraftColumn { ty, ..old(self).columns@[i as int] },
                ));
                true
            },
            Err(e) => {
                self.apply_error = Some(e);
                false
            },
        }
    }

    /// The unit without the white space around it; an empty one is none.
    pub fn set_unit(&mut self, i: usize, unit: &str)
        requires
            i < old(self).columns@.len(),
        ensures
            final(self).columns@.len() == old(self).columns@.len(),
            forall|k: int|
                0 <= k < old(self).columns@.len() && k != i ==> #[trigger] final(self).columns@[k]
                    == old(self).columns@[k],
            final(self).columns@[i as int] == (DraftColumn {
                unit: final(self).columns@[i as int].unit,
                ..old(self).columns@[i as int]
            }),
            match final(self).columns@[i as int].unit {
                Some(u) => u@ == trimmed(unit@) && u@.len() > 0,
                None => trimmed(unit@).len() == 0,
            },
            *final(self) == (MarkupState { columns: final(self).columns, ..*old(self) }),
    {
        let text: String = trim(unit);
        let column: DraftColumn = self.columns.remove(i);
        let unit: Option<String> = if is_empty(text.as_str()) {
            None
        } else {
            Some(text)
        };
        self.columns.insert(i, DraftColumn { unit, ..column });
    }
}

proof fn lemma_first_block(state: MarkupState, i: int)
    requires
        0 <= i < state.profile@.len(),
        state.profile@[i].severity == Severity::Blocking,
        forall|k: int|
            0 <= k < i ==> (#[trigger] state.profile@[k]).severity != Severity::Blocking,
    ensures
        state.first_block() == Some(state.profile@[i].text@),
{
    let j = choose|j: int|
        #![trigger state.profile@[j]]
        0 <= j < state.profile@.len() && state.profile@[j].severity == Severity::Blocking
            && forall|k: int|
            0 <= k < j ==> (#[trigger] state.profile@[k]).severity != Severity::Blocking;
    assert(state.profile@[i].severity == Severity::Blocking);
    assert(i == j);
}

/// A table that can be applied has no issue, and applying it is not refused
/// on account of the table: what building the dataset came to is what comes
/// out.
pub proof fn law_applicable_tables_are_not_refused(state: MarkupState)
    requires
        state.applicable(),
    ensures
        state.first_block() is None,
        state.issues@.len() == 0,
{
}

/// How a dialogue goes on after a frame.
#[derive(Clone, Copy, Debug, PartialEq, Eq, Structural)]
pub enum MarkupStep {
    Stay,
    /// The header setting changed: the table is read again, and what was
    /// marked up is dropped.
    Reopen { has_header: bool },
    Close,
}

/// What a frame of the dialogue comes to. A changed header setting makes
/// everything else moot.
pub fn markup_step(
    state: &MarkupState,
    header_now: bool,
    window_open: bool,
    applied: bool,
) -> (step: MarkupStep)
    ensures
        step == if header_now != state.has_header {
            MarkupStep::Reopen { has_header: header_now }
        } else if !window_open || applied {
            MarkupStep::Close
        } else {
            MarkupStep::Stay
        },
{
    if header_now != state.has_header {
        MarkupStep::Reopen { has_header: header_now }
    } else if !window_open || applied {
        MarkupStep::Close
    } else {
        MarkupStep::Stay
    }
}

/// The head line of the dialogue.
pub open spec fn markup_title(state: MarkupState) -> Seq<char> {
    state.path@ + " — "@ + decimal(state.rows as nat) + " строк, "@ + decimal(
        state.columns@.len(),
    ) + " колонок"@
}

pub open spec fn role_name(role: ColumnRole) -> Seq<char> {
    match role {
        ColumnRole::Input => "вход"@,
        ColumnRole::Output => "выход"@,
        ColumnRole::Ignore => "пропустить"@,
    }
}

pub open spec fn kind_name(ty: DraftType) -> Seq<char> {
    match ty {
        DraftType::Numeric => "число"@,
        DraftType::Categorical => "категория"@,
    }
}

fn role_text(role: ColumnRole) -> (text: &'static str)
    ensures
        text@ == role_name(role),
{
    match role {
        ColumnRole::Input => "вход",
        ColumnRole::Output => "выход",
        ColumnRole::Ignore => "пропустить",
    }
}

fn kind_text(ty: DraftType) -> (text: &'static str)
    ensures
        text@ == kind_name(ty),
{
    match ty {
        DraftType::Numeric => "число",
        DraftType::Categorical => "категория",
    }
}

pub open spec fn column_item(column: DraftColumn) -> ItemView {
    ItemView::Row(
        seq![
            column.name@,
            role_name(column.role),
            kind_name(column.ty),
            match column.unit {
                Some(u) => u@,
                None => ""@,
            },
            column.data@,
        ],
    )
}

pub open spec fn message_item(message: Message) -> ItemView {
    match message.severity {
        Severity::Blocking => ItemView::Problem("✖ "@ + message.text@),
        Severity::Warning => ItemView::Warning("⚠ "@ + message.text@),
        Severity::Note => ItemView::Label("• "@ + message.text@),
    }
}

fn show_messages(page: &mut Page, list: &Vec<Message>)
    ensures
        final(page)@ == old(page)@ + list@.map_values(|m: Message| message_item(m)),
{
    let ghost start = page@;
    let mut i: usize = 0;
    while i < list.len()
        invariant
            i <= list.len(),
            start == old(page)@,
            page@ == start + list@.take(i as int).map_values(|m: Message| message_item(m)),
        decreases list.len() - i,
    {
        match list[i].severity {
            Severity::Blocking => {
                let mut text: String = owned("✖ ");
                text.append(list[i].text.as_str());
                page.problem(text.as_str());
            },
            Severity::Warning => {
                let mut text: String = owned("⚠ ");
                text.append(list[i].text.as_str());
                page.warning(text.as_str());
            },
            Severity::Note => {
                let mut text: String = owned("• ");
                text.append(list[i].text.as_str());
                page.label(text.as_str());
            },
        }
        i += 1;
        assert(page@ =~= start + list@.take(i as int).map_values(|m: Message| message_item(m)));
    }
    assert(list@.take(i as int) =~= list@);
}

pub open spec fn issue_item(issue: Seq<char>) -> ItemView {
    ItemView::Problem("✖ "@ + issue)
}

/// What the data of a column look like: how many different values there are,
/// where they could be counted, and how many cells are empty or hold text.
pub open spec fn data_text(distinct: Option<usize>, missing: usize, non_numeric: usize) -> Seq<
    char,
> {
    "различных "@ + match distinct {
        Some(n) => decimal(n as nat),
        None => "много"@,
    } + ", пропусков "@ + decimal(missing as nat) + ", текст "@ + decimal(non_numeric as nat)
}

pub fn data_summary(distinct: Option<usize>, missing: usize, non_numeric: usize) -> (text: String)
    ensures
        text@ == data_text(distinct, missing, non_numeric),
{
    let mut text: String = owned("различных ");
    match distinct {
        Some(n) => text.append(decimal_text(n as u64).as_str()),
        None => text.append("много"),
    }
    text.append(", пропусков ");
    text.append(decimal_text(missing as u64).as_str());
    text.append(", текст ");
    text.append(decimal_text(non_numeric as u64).as_str());
    text
}

/// The heading row of the columns.
pub open spec fn columns_heading() -> ItemView {
    ItemView::Row(seq!["колонка"@, "роль"@, "тип"@, "единица"@, "данные"@])
}

fn show_heading(page: &mut Page)
    ensures
        final(page)@ == old(page)@.push(columns_heading()),
{
    let mut cells: Vec<String> = Vec::new();
    cells.push(owned("колонка"));
    cells.push(owned("роль"));
    cells.push(owned("тип"));
    cells.push(owned("единица"));
    cells.push(owned("данные"));
    assert(crate::text::texts(cells@) =~= columns_heading()->Row_0);
    page.row(cells);
}

/// The dialogue: the columns, what is wrong, the remarks, and the button
/// that applies the choice. While the header setting is being changed the
/// choice cannot be applied.
pub open spec fn markup_items(state: MarkupState, header_now: bool) -> Seq<ItemView> {
    seq![
        ItemView::Label(markup_title(state)),
        ItemView::Check { field: Field::HasHeader, label: "первая строка — заголовок"@ },
        ItemView::Separator,
        columns_heading(),
    ] + state.columns@.map_values(|c: DraftColumn| column_item(c)) + seq![ItemView::Separator]
        + state.issues@.map_values(|t: String| issue_item(t@)) + match state.apply_error {
        Some(e) => seq![issue_item(e@)],
        None => Seq::empty(),
    } + state.profile@.map_values(|m: Message| message_item(m)) + state.report@.map_values(
        |m: Message| message_item(m),
    ) + seq![
        ItemView::Separator,
        ItemView::Button {
            action: Action::ApplyMarkup,
            label: "Применить разметку"@,
            enabled: state.applicable() && header_now == state.has_header,
        },
    ]
}

pub fn ui_markup(state: &MarkupState, header_now: bool) -> (page: Page)
    ensures
        page@ == markup_items(*state, header_now),
{
    let mut page: Page = Page::new();
    let mut title: String = owned(state.path.as_str());
    title.append(" — ");
    title.append(decimal_text(state.rows as u64).as_str());
    title.append(" строк, ");
    title.append(decimal_text(state.columns.len() as u64).as_str());
    title.append(" колонок");
    page.label(title.as_str());
    page.check(Field::HasHeader, "первая строка — заголовок");
    page.separator();
    show_heading(&mut page);
    let ghost head = seq![
        ItemView::Label(markup_title(*state)),
        ItemView::Check { field: Field::HasHeader, label: "первая строка — заголовок"@ },
        ItemView::Separator,
        columns_heading(),
    ];
    assert(page@ =~= head);
    let mut i: usize = 0;
    while i < state.columns.len()
        invariant
            i <= state.columns.len(),
            page@ == head + state.columns@.take(i as int).map_values(
                |c: DraftColumn| column_item(c),
            ),
        decreases state.columns.len() - i,
    {
        let column: &DraftColumn = &state.columns[i];
        let mut cells: Vec<String> = Vec::new();
        cells.push(owned(column.name.as_str()));
        cells.push(owned(role_text(column.role)));
        cells.push(owned(kind_text(column.ty)));
        match &column.unit {
            Some(u) => {
                cells.push(owned(u.as_str()));
            },
            None => {
                cells.push(owned(""));
            },
        }
        cells.push(owned(column.data.as_str()));
        assert(crate::text::texts(cells@) =~= column_item(*column)->Row_0);
        page.row(cells);
        i += 1;
        assert(page@ =~= head + state.columns@.take(i as int).map_values(
            |c: DraftColumn| column_item(c),
        ));
    }
    assert(state.columns@.take(i as int) =~= state.columns@);
    page.separator();
    let ghost columns = page@;
    let mut i: usize = 0;
    while i < state.issues.len()
        invariant
            i <= state.issues.len(),
            page@ == columns + state.issues@.take(i as int).map_values(
                |t: String| issue_item(t@),
            ),
        decreases state.issues.len() - i,
    {
        let mut text: String = owned("✖ ");
        text.append(state.issues[i].as_str());
        page.problem(text.as_str());
        i += 1;
        assert(page@ =~= columns + state.issues@.take(i as int).map_values(
            |t: String| issue_item(t@),
        ));
    }
    assert(state.issues@.take(i as int) =~= state.issues@);
    if let Some(e) = &state.apply_error {
        let mut text: String = owned("✖ ");
        text.append(e.as_str());
        page.problem(text.as_str());
    }
    show_messages(&mut page, &state.profile);
    show_messages(&mut page, &state.report);
    page.separator();
    let ready: bool = state.can_apply() && header_now == state.has_header;
    page.button(Action::ApplyMarkup, "Применить разметку", ready);
    assert(page@ =~= markup_items(*state, header_now));
    page
}

/// A suggested number of inputs makes the columns in front of it inputs and
/// the others outputs, unless that left no input or no output; then, and
/// without a suggestion, the roles stay.
pub proof fn law_suggested_roles_leave_both_sides(
    role: ColumnRole,
    i: int,
    len: nat,
    inputs: Option<usize>,
)
    requires
        0 <= i < len,
    ensures
        match inputs {
            None => suggested_role(role, i, len, inputs) == role,
            Some(n) => if n == 0 || n >= len {
                suggested_role(role, i, len, inputs) == role
            } else {
                suggested_role(role, i, len, inputs) == if i < n {
                    ColumnRole::Input
                } else {
                    ColumnRole::Output
                }
            },
        },
{
}

/// A table can be applied exactly if no issue is left, applying it did not
/// fail, and no remark on it stands in the way; the text that refuses it is
/// that of the first such remark.
pub proof fn law_a_blocking_remark_refuses_the_table(state: MarkupState, i: int)
    requires
        0 <= i <= state.profile@.len(),
        forall|k: int|
            0 <= k < i ==> (#[trigger] state.profile@[k]).severity != Severity::Blocking,
        i < state.profile@.len() ==> state.profile@[i].severity == Severity::Blocking,
    ensures
        state.applicable() <==> state.issues@.len() == 0 && state.apply_error is None && i
            == state.profile@.len(),
        state.first_block() == if i < state.profile@.len() {
            Some(state.profile@[i].text@)
        } else {
            None
        },
{
    if i < state.profile@.len() {
        lemma_first_block(state, i);
        assert(state.blocked());
    }
}

/// A column becomes a category exactly if it was suggested as one; every other
/// column keeps its type, and nothing but role and type is changed.
pub proof fn law_suggested_categories_are_taken(
    column: DraftColumn,
    i: usize,
    categories: Seq<usize>,
    role: ColumnRole,
)
    ensures
        categories.contains(i) ==> suggested_type(column.ty, i as int, categories)
            == DraftType::Categorical,
        !categories.contains(i) ==> suggested_type(column.ty, i as int, categories) == column.ty,
        ({
            let next = retyped(column, role, suggested_type(column.ty, i as int, categories));
            next.name == column.name && next.unit == column.unit && next.role == role
        }),
{
}

/// A column is shown by its name, its role, its type, its unit and its data,
/// under the headings of these.
pub proof fn law_columns_are_shown_under_their_headings(column: DraftColumn)
    ensures
        columns_heading() matches ItemView::Row(heads) && (column_item(column) matches ItemView::Row(
            cells,
        ) && heads.len() == 5 && cells.len() == 5 && heads[0] == "колонка"@ && cells[0]
            == column.name@ && heads[1] == "роль"@ && cells[1] == match column.role {
            ColumnRole::Input => "вход"@,
            ColumnRole::Output => "выход"@,
            ColumnRole::Ignore => "пропустить"@,
        } && heads[2] == "тип"@ && cells[2] == match column.ty {
            DraftType::Numeric => "число"@,
            DraftType::Categorical => "категория"@,
        } && heads[3] == "единица"@ && (column.unit matches Some(u) ==> cells[3] == u@) && heads[4]
            == "данные"@ && cells[4] == column.data@),
{
}

} // verus!
