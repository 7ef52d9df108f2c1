//! What a query shows: entries, the actions they run, and the modes that
//! produce them.

use vstd::prelude::*;

verus! {

/// What activating an entry does.
#[derive(Debug)]
pub enum Action {
    /// Run the program at this path, detached, then quit.
    RunExecutable(Vec<u8>),
}

/// An action as plain values.
pub enum ActionView {
    RunExecutable(Seq<u8>),
}

impl View for Action {
    type V = ActionView;

    open spec fn view(&self) -> ActionView {
        match self {
            Action::RunExecutable(path) => ActionView::RunExecutable(path@),
        }
    }
}

/// A named action offered beside an entry's main one.
#[derive(Debug)]
pub struct AlternateAction {
    pub name: String,
    pub action: Action,
}

/// One line of the result list.
#[derive(Debug)]
pub struct Entry {
    /// The text shown.
    pub text: String,
    /// What activating the entry does.
    pub action: Action,
    /// Further actions, each under its own name, shown in an expander.
    pub alternate_actions: Option<Vec<AlternateAction>>,
    /// Whether the expander of the alternate actions starts open.
    pub open: bool,
}

/// An entry as plain values.
pub struct EntryView {
    pub text: Seq<char>,
    pub action: ActionView,
    pub alternate_actions: Option<Seq<(Seq<char>, ActionView)>>,
    pub open: bool,
}

impl View for AlternateAction {
    type V = (Seq<char>, ActionView);

    open spec fn view(&self) -> (Seq<char>, ActionView) {
        (self.name@, self.action@)
    }
}

impl View for Entry {
    type V = EntryView;

    open spec fn view(&self) -> EntryView {
        EntryView {
            text: self.text@,
            action: self.action@,
            alternate_actions: match self.alternate_actions {
                Some(alts) => Some(alts@.map_values(|a: AlternateAction| a@)),
                None => None,
            },
            open: self.open,
        }
    }
}

/// The views of a sequence of entries.
pub open spec fn entry_views(entries: Seq<Entry>) -> Seq<EntryView> {
    entries.map_values(|e: Entry| e@)
}

/// The entry that shows `text` and runs the program at `program`, with no
/// alternate actions.
pub open spec fn program_entry(text: Seq<char>, program: Seq<u8>) -> EntryView {
    EntryView {
        text: text,
        action: ActionView::RunExecutable(program),
        alternate_actions: None,
        open: false,
    }
}

/// Where the entries of a query come from.
#[derive(Debug)]
pub enum Mode {
    /// Desktop applications known to the system.
    Drun,
    /// Programs in the folders of `PATH`.
    Run,
    /// A source of the user's own, under this name.
    Custom(String),
}

/// A copy of `bytes`.
pub fn copy_bytes(bytes: &Vec<u8>) -> (copy: Vec<u8>)
    ensures
        copy@ == bytes@,
{
    let mut copy: Vec<u8> = Vec::new();
    let mut i: usize = 0;
    while i < bytes.len()
        invariant
            i <= bytes.len(),
            copy@ == bytes@.subrange(0, i as int),
        decreases bytes.len() - i,
    {
        copy.push(bytes[i]);
        i = i + 1;
    }
    assert(bytes@.subrange(0, bytes@.len() as int) == bytes@);
    copy
}

impl Action {
    /// A copy of this action.
    pub fn duplicate(&self) -> (copy: Action)
        ensures
            copy@ == self@,
    {
        match self {
            Action::RunExecutable(path) => Action::RunExecutable(copy_bytes(path)),
        }
    }
}

impl Entry {
    /// No two alternate actions share a name.
    pub open spec fn wf(&self) -> bool {
        match self.alternate_actions {
            Some(alts) => forall|i: int, j: int|
                0 <= i < j < alts@.len() ==> #[trigger] alts@[i].name@ != #[trigger] alts@[j].name@,
            None => true,
        }
    }

    /// The entry that shows `text` and runs the program at `program`.
    pub fn for_program(text: String, program: Vec<u8>) -> (entry: Entry)
        ensures
            entry@ == program_entry(text@, program@),
            entry.wf(),
    {
        Entry { text, action: Action::RunExecutable(program), alternate_actions: None, open: false }
    }

    /// A copy of this entry.
    pub fn duplicate(&self) -> (copy: Entry)
        ensures
            copy@ == self@,
            copy.wf() == self.wf(),
    {
        let alternate_actions = match &self.alternate_actions {
            Some(alts) => {
                let mut copies: Vec<AlternateAction> = Vec::new();
                let mut i: usize = 0;
                while i < alts.len()
                    invariant
                        i <= alts.len(),
                        copies@.len() == i,
                        forall|k: int| 0 <= k < i ==> (#[trigger] copies@[k])@ == alts@[k]@,
                    decreases alts.len() - i,
                {
                    let a = &alts[i];
                    copies.push(AlternateAction { name: a.name.clone(), action: a.action.duplicate() });
                    i = i + 1;
                }
                assert(copies@.map_values(|a: AlternateAction| a@) =~= alts@.map_values(|a: AlternateAction| a@));
                Some(copies)
            },
            None => None,
        };
        let copy = Entry {
            text: self.text.clone(),
            action: self.action.duplicate(),
            alternate_actions,
            open: self.open,
        };
        proof {
            if self.alternate_actions is Some {
                let alts = self.alternate_actions->0;
                let copies = copy.alternate_actions->0;
                assert(copies@.len() == alts@.len());
                assert forall|k: int| 0 <= k < alts@.len() implies #[trigger] copies@[k].name@ == alts@[k].name@ by {
                    assert(copies@.map_values(|a: AlternateAction| a@)[k] == alts@.map_values(|a: AlternateAction| a@)[k]);
                }
                if self.wf() {
                    assert forall|i: int, j: int| 0 <= i < j < copies@.len() implies
                        #[trigger] copies@[i].name@ != #[trigger] copies@[j].name@ by {
                        assert(alts@[i].name@ != alts@[j].name@);
                    }
                }
                if copy.wf() {
                    assert forall|i: int, j: int| 0 <= i < j < alts@.len() implies
                        #[trigger] alts@[i].name@ != #[trigger] alts@[j].name@ by {
                        assert(copies@[i].name@ != copies@[j].name@);
                    }
                }
            }
        }
        copy
    }
}

} // verus!
