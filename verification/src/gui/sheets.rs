//! Choosing a sheet of a workbook. A workbook with several sheets is not
//! read before one of them is chosen, and a choice holds for its own
//! workbook only.

use crate::gui::page::{Field, ItemView, Page};
use crate::text::{copy_texts, decimal, decimal_text, find_text, owned, place_in, same, texts};
use vstd::prelude::*;
use vstd::string::StringExecFns;

verus! {

/// The choice of a sheet for one file.
#[derive(Debug)]
pub struct SheetChoice {
    /// The workbook that the sheets are of; empty where nothing is offered.
    pub path: String,
    pub sheets: Vec<String>,
    pub selected: Option<String>,
}

pub open spec fn chosen(selected: Option<String>) -> Option<Seq<char>> {
    match selected {
        Some(s) => Some(s@),
        None => None,
    }
}

impl Default for SheetChoice {
    fn default() -> (choice: SheetChoice)
        ensures
            choice.is_clear(),
    {
        proof {
            reveal_strlit("");
        }
        SheetChoice { path: owned(""), sheets: Vec::new(), selected: None }
    }
}

impl SheetChoice {
    /// Nothing is offered and nothing is chosen.
    pub open spec fn is_clear(self) -> bool {
        self.path@.len() == 0 && self.sheets@.len() == 0 && self.selected is None
    }

    /// The sheets of a workbook are there to choose from.
    pub fn offer(&mut self, path: String, sheets: Vec<String>)
        ensures
            final(self).path == path,
            final(self).sheets == sheets,
            final(self).selected is None,
    {
        self.path = path;
        self.sheets = sheets;
        self.selected = None;
    }

    /// Another file was chosen.
    pub fn clear(&mut self)
        ensures
            final(self).is_clear(),
    {
        *self = SheetChoice::default();
    }

    /// The chosen sheet of this workbook.
    pub open spec fn choice_for(self, path: Seq<char>) -> Option<Seq<char>> {
        if self.path@ == path {
            chosen(self.selected)
        } else {
            None
        }
    }

    pub fn sheet_for(&self, path: &str) -> (sheet: Option<&str>)
        ensures
            match sheet {
                Some(s) => self.choice_for(path@) == Some(s@),
                None => self.choice_for(path@) is None,
            },
    {
        if !same(self.path.as_str(), path) {
            return None;
        }
        match &self.selected {
            Some(s) => Some(s.as_str()),
            None => None,
        }
    }

    /// Whether this workbook waits for a choice.
    pub fn awaiting(&self, path: &str) -> (yes: bool)
        ensures
            yes == (self.path@ == path@ && self.sheets@.len() > 0 && self.selected is None),
    {
        same(self.path.as_str(), path) && self.sheets.len() > 0 && self.selected.is_none()
    }

    /// Whether the list of sheets is shown for this workbook.
    pub open spec fn shown_for(self, path: Seq<char>) -> bool {
        self.path@ == path && self.sheets@.len() > 0
    }

    pub fn shown(&self, path: &str) -> (yes: bool)
        ensures
            yes == self.shown_for(path@),
    {
        same(self.path.as_str(), path) && self.sheets.len() > 0
    }

    /// A sheet of the list was picked; says whether the choice changed.
    pub fn pick(&mut self, path: &str, sheet: usize) -> (changed: bool)
        requires
            sheet < old(self).sheets@.len(),
        ensures
            final(self).path@ == old(self).path@,
            final(self).sheets@ == old(self).sheets@,
            chosen(final(self).selected) == if old(self).shown_for(path@) {
                Some(old(self).sheets@[sheet as int]@)
            } else {
                chosen(old(self).selected)
            },
            changed == (chosen(final(self).selected) != chosen(old(self).selected)),
    {
        if !self.shown(path) {
            return false;
        }
        let changed: bool = match &self.selected {
            Some(s) => !same(s.as_str(), self.sheets[sheet].as_str()),
            None => true,
        };
        self.selected = Some(owned(self.sheets[sheet].as_str()));
        changed
    }
}

/// The list of sheets, where it is of this workbook: how many there are, and
/// the one that is chosen. Where none is, the number behind the last stands for
/// it.
pub open spec fn sheet_items(choice: SheetChoice, path: Seq<char>) -> Seq<ItemView> {
    if choice.shown_for(path) {
        seq![
            ItemView::Label("листов в книге: "@ + decimal(choice.sheets@.len())),
            ItemView::Choice {
                field: Field::Sheet,
                label: match choice.selected {
                    Some(s) => s@,
                    None => "(выберите лист)"@,
                },
                options: texts(choice.sheets@),
                chosen: match choice.selected {
                    Some(s) => place_in(texts(choice.sheets@), s@, 0) as usize,
                    None => choice.sheets@.len() as usize,
                },
            },
        ]
    } else {
        Seq::empty()
    }
}

pub fn ui_sheets(choice: &SheetChoice, path: &str) -> (page: Page)
    ensures
        page@ == sheet_items(*choice, path@),
{
    let mut page: Page = Page::new();
    if choice.shown(path) {
        let mut count: String = owned("листов в книге: ");
        count.append(decimal_text(choice.sheets.len() as u64).as_str());
        page.label(count.as_str());
        match &choice.selected {
            Some(s) => {
                let chosen: usize = find_text(&choice.sheets, s.as_str());
                page.choice(Field::Sheet, s.as_str(), copy_texts(&choice.sheets), chosen);
            },
            None => {
                page.choice(
                    Field::Sheet,
                    "(выберите лист)",
                    copy_texts(&choice.sheets),
                    choice.sheets.len(),
                );
            },
        }
    }
    assert(page@ =~= sheet_items(*choice, path@));
    page
}

/// The choices of all files of the window, and what to ask for again once a
/// sheet is chosen.
#[derive(Debug)]
pub struct SheetState {
    pub markup: SheetChoice,
    pub prepare: SheetChoice,
    pub export: SheetChoice,
    pub markup_request: Option<(String, bool)>,
    pub export_request: Option<(String, String)>,
}

impl Default for SheetState {
    fn default() -> (state: SheetState)
        ensures
            state.markup.is_clear(),
            state.prepare.is_clear(),
            state.export.is_clear(),
            state.markup_request is None,
            state.export_request is None,
    {
        SheetState {
            markup: SheetChoice::default(),
            prepare: SheetChoice::default(),
            export: SheetChoice::default(),
            markup_request: None,
            export_request: None,
        }
    }
}

/// What was chosen in one workbook is never used for another, however its
/// sheets are named.
pub proof fn law_a_choice_is_for_its_own_workbook(
    choice: SheetChoice,
    path: Seq<char>,
)
    requires
        choice.path@ != path,
    ensures
        choice.choice_for(path) is None,
        !choice.shown_for(path),
{
}

/// Sheets are listed only for the workbook that they were read from. The list
/// points at the sheet that is chosen, and behind its end where none is.
pub proof fn law_the_list_points_at_the_chosen_sheet(choice: SheetChoice, path: Seq<char>)
    ensures
        sheet_items(choice, path).len() > 0 <==> choice.path@ == path && choice.sheets@.len() > 0,
        choice.path@ == path && choice.sheets@.len() > 0 && choice.sheets@.len() <= usize::MAX ==> (
        sheet_items(choice, path)[1] matches ItemView::Choice { options, chosen, .. } && options
            == texts(choice.sheets@) && match choice.selected {
            Some(s) => if chosen < options.len() {
                options[chosen as int] == s@
            } else {
                forall|i: int| 0 <= i < options.len() ==> #[trigger] options[i] != s@
            },
            None => chosen == options.len(),
        }),
{
    if let Some(s) = choice.selected {
        lemma_sheet_place(texts(choice.sheets@), s@, 0);
    }
}

proof fn lemma_sheet_place(list: Seq<Seq<char>>, wanted: Seq<char>, n: int)
    requires
        0 <= n <= list.len(),
    ensures
        n <= place_in(list, wanted, n) <= list.len(),
        place_in(list, wanted, n) < list.len() ==> list[place_in(list, wanted, n)] == wanted,
        forall|i: int| n <= i < place_in(list, wanted, n) ==> #[trigger] list[i] != wanted,
    decreases list.len() - n,
{
    if n < list.len() && list[n] != wanted {
        lemma_sheet_place(list, wanted, n + 1);
    }
}

} // verus!
