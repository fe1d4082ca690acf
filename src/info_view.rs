use vstd::prelude::*;

use crate::point::Point;
use crate::program::{Ability, Program, Team, named_abilities_view};

verus! {

/// A vertical list of labelled choices starting at row `y` of a panel; a click on a row
/// selects it, a second click on the same row deselects it.
pub struct ChoiceList<T> {
    y: u16,
    list: Vec<(String, T)>,
    selected: Option<u16>,
}

impl<T> ChoiceList<T> {
    /// The row of the first choice.
    pub closed spec fn top(&self) -> u16 {
        self.y
    }

    pub closed spec fn items(&self) -> Seq<(String, T)> {
        self.list@
    }

    /// The selected row, if any.
    pub closed spec fn selection(&self) -> Option<u16> {
        self.selected
    }

    /// A selected row names a choice of the list.
    pub open spec fn wf(&self) -> bool {
        self.selection() matches Some(s) ==> self.top() <= s && s - self.top() < self.items().len()
    }

    pub fn new(y: u16) -> (r: ChoiceList<T>)
        ensures
            r.top() == y,
            r.items().len() == 0,
            r.selection() is None,
    {
        ChoiceList { y, list: Vec::new(), selected: None }
    }

    /// The choices themselves, to be filled or emptied by the caller.
    pub fn choices(&mut self) -> (r: &mut Vec<(String, T)>)
        ensures
            r@ == old(self).items(),
            final(self).items() == final(r)@,
            final(self).top() == old(self).top(),
            final(self).selection() == old(self).selection(),
    {
        &mut self.list
    }

    /// Selects the clicked row, deselects it when it was already selected, and clears the
    /// selection on a click outside the list. Returns the selected choice.
    pub fn handle_click(&mut self, point: Point) -> (r: Option<&T>)
        ensures
            final(self).top() == old(self).top(),
            final(self).items() == old(self).items(),
            final(self).wf(),
            final(self).selection() == if point.y < old(self).top() || point.y - old(self).top()
                >= old(self).items().len() {
                None
            } else if old(self).selection() == Some(point.y) {
                None
            } else {
                Some(point.y)
            },
            r matches Some(t) ==> final(self).selection() matches Some(s) && *t == old(self).items()[s
                - old(self).top()].1,
            r is None <==> final(self).selection() is None,
    {
        if point.y < self.y || (point.y - self.y) as usize >= self.list.len() {
            self.selected = None;
        } else if let Some(offset) = self.selected {
            if offset == point.y {
                self.selected = None;
            } else {
                self.selected = Some(point.y);
            }
        } else {
            self.selected = Some(point.y);
        }
        self.get_selection()
    }

    /// The row of the first choice.
    pub fn row(&self) -> (r: u16)
        ensures
            r == self.top(),
    {
        self.y
    }

    /// The selected row, if any.
    pub fn selected_row(&self) -> (r: Option<u16>)
        ensures
            r == self.selection(),
    {
        self.selected
    }

    /// The labels of the choices, in order.
    pub fn labels(&self) -> (r: Vec<String>)
        ensures
            r@.len() == self.items().len(),
            forall|i: int| 0 <= i < r@.len() ==> #[trigger] r@[i] == self.items()[i].0,
    {
        let mut out: Vec<String> = Vec::new();
        let n = self.list.len();
        let mut i: usize = 0;
        while i < n
            invariant
                0 <= i <= n,
                n == self.list@.len(),
                out@.len() == i,
                forall|k: int| 0 <= k < i ==> #[trigger] out@[k] == self.list@[k].0,
            decreases n - i,
        {
            out.push(self.list[i].0.clone());
            i = i + 1;
        }
        out
    }

    /// Position of the selected choice in the list.
    pub fn get_selection_index(&self) -> (r: Option<u16>)
        requires
            self.wf(),
        ensures
            r matches Some(i) ==> self.selection() matches Some(s) && i == s - self.top(),
            r is None <==> self.selection() is None,
    {
        match self.selected {
            Some(y) => Some(y - self.y),
            None => None,
        }
    }

    pub fn get_selection(&self) -> (r: Option<&T>)
        requires
            self.wf(),
        ensures
            r matches Some(t) ==> self.selection() matches Some(s) && *t == self.items()[s - self.top()].1,
            r is None <==> self.selection() is None,
    {
        match self.selected {
            Some(y) => Some(&self.list[(y - self.y) as usize].1),
            None => None,
        }
    }

    pub fn clear_selection(&mut self)
        ensures
            final(self).selection() is None,
            final(self).top() == old(self).top(),
            final(self).items() == old(self).items(),
    {
        self.selected = None;
    }

    /// Removes every choice and the selection.
    pub fn clear(&mut self)
        ensures
            final(self).selection() is None,
            final(self).top() == old(self).top(),
            final(self).items().len() == 0,
    {
        self.list.clear();
        self.selected = None;
    }
}

/// What the panel shows of the unit being handled.
pub struct ProgramInfo {
    pub name: String,
    pub moves_made: usize,
    pub max_moves: usize,
    pub ability_used: bool,
}

/// Whether the panel shows unit `p`: its name, its moves and whether it used its ability.
pub open spec fn shows(info: Option<ProgramInfo>, p: crate::program::ProgramView) -> bool {
    info matches Some(i) && i.name@ == p.name && i.moves_made == p.turn_state.moves_made
        && i.max_moves == p.max_moves && i.ability_used == p.turn_state.ability_used
}

/// The label of the panel's main button.
#[derive(Clone, Copy, Debug, PartialEq, Eq, Structural)]
pub enum PrimaryAction {
    EndTurn,
    LaunchIntrusion,
}

/// The side panel: whose turn it is, the unit being handled and its abilities.
pub struct InfoView {
    pub ability_list: ChoiceList<Ability>,
    pub team: Team,
    pub primary_action: PrimaryAction,
    pub program: Option<ProgramInfo>,
}

/// The abilities of a unit as listed in the panel.
pub open spec fn listed_abilities(items: Seq<(String, Ability)>) -> Seq<(Seq<char>, Ability)> {
    named_abilities_view(items)
}

impl InfoView {
    /// An empty panel for the player's turn; the ability list starts at row 6.
    pub fn new() -> (r: InfoView)
        ensures
            r.ability_list.top() == 6,
            r.ability_list.items().len() == 0,
            r.ability_list.selection() is None,
            r.team == Team::Player,
            r.primary_action == PrimaryAction::EndTurn,
            r.program is None,
    {
        InfoView {
            ability_list: ChoiceList::new(6),
            team: Team::Player,
            primary_action: PrimaryAction::EndTurn,
            program: None,
        }
    }

    pub fn set_team(&mut self, team: Team)
        ensures
            final(self).team == team,
            final(self).primary_action == old(self).primary_action,
            final(self).program == old(self).program,
            final(self).ability_list == old(self).ability_list,
    {
        self.team = team;
    }

    /// Forgets the unit shown and its abilities.
    pub fn clear(&mut self)
        ensures
            final(self).ability_list.items().len() == 0,
            final(self).ability_list.selection() is None,
            final(self).ability_list.top() == old(self).ability_list.top(),
            final(self).program is None,
            final(self).team == old(self).team,
            final(self).primary_action == old(self).primary_action,
    {
        self.ability_list.clear();
        self.program = None;
    }

    /// Shows a unit: its name, moves, and its abilities unless it has used one this turn.
    pub fn display_program(&mut self, program: &Program)
        ensures
            shows(final(self).program, program@),
            final(self).ability_list.selection() is None,
            final(self).ability_list.top() == old(self).ability_list.top(),
            program@.turn_state.ability_used ==> final(self).ability_list.items().len() == 0,
            !program@.turn_state.ability_used ==> listed_abilities(final(self).ability_list.items())
                == program@.abilities,
            final(self).team == old(self).team,
            final(self).primary_action == old(self).primary_action,
    {
        self.program = Some(
            ProgramInfo {
                name: program.name.clone(),
                moves_made: program.turn_state.moves_made,
                max_moves: program.max_moves,
                ability_used: program.turn_state.ability_used,
            },
        );
        self.ability_list.clear();
        if !program.turn_state.ability_used {
            let list = self.ability_list.choices();
            let n = program.abilities.len();
            let mut i: usize = 0;
            while i < n
                invariant
                    0 <= i <= n,
                    n == program.abilities@.len(),
                    list@.len() == i,
                    forall|k: int|
                        0 <= k < i ==> (#[trigger] list@[k]).0@ == program.abilities@[k].0@ && list@[k].1
                            == program.abilities@[k].1,
                decreases n - i,
            {
                let name = program.abilities[i].0.clone();
                let ability = program.abilities[i].1;
                list.push((name, ability));
                i = i + 1;
            }
            proof {
                assert(listed_abilities(list@) =~= program@.abilities);
            }
        }
    }

    /// Refreshes the moves shown for the unit.
    pub fn update_program(&mut self, program: &Program)
        ensures
            final(self).program == match old(self).program {
                Some(info) => Some(
                    ProgramInfo {
                        moves_made: program@.turn_state.moves_made,
                        max_moves: program@.max_moves,
                        ..info
                    },
                ),
                None => None,
            },
            final(self).ability_list == old(self).ability_list,
            final(self).team == old(self).team,
            final(self).primary_action == old(self).primary_action,
    {
        match &mut self.program {
            Some(info) => {
                info.moves_made = program.turn_state.moves_made;
                info.max_moves = program.max_moves;
            },
            None => {},
        }
    }

    /// The ability on the clicked row of the panel, selected by the click.
    pub fn translate_click(&mut self, click: Point) -> (r: Option<Ability>)
        ensures
            final(self).ability_list.top() == old(self).ability_list.top(),
            final(self).ability_list.items() == old(self).ability_list.items(),
            final(self).ability_list.wf(),
            final(self).ability_list.selection() == if click.y < old(self).ability_list.top()
                || click.y - old(self).ability_list.top() >= old(self).ability_list.items().len() {
                None
            } else if old(self).ability_list.selection() == Some(click.y) {
                None
            } else {
                Some(click.y)
            },
            r matches Some(a) ==> final(self).ability_list.selection() matches Some(s) && a
                == old(self).ability_list.items()[s - old(self).ability_list.top()].1,
            r is None <==> final(self).ability_list.selection() is None,
            final(self).program == old(self).program,
            final(self).team == old(self).team,
            final(self).primary_action == old(self).primary_action,
    {
        match self.ability_list.handle_click(click) {
            Some(a) => Some(*a),
            None => None,
        }
    }

    /// Deselects the chosen ability.
    pub fn clear_ability(&mut self)
        ensures
            final(self).ability_list.selection() is None,
            final(self).ability_list.top() == old(self).ability_list.top(),
            final(self).ability_list.items() == old(self).ability_list.items(),
            final(self).program == old(self).program,
            final(self).team == old(self).team,
            final(self).primary_action == old(self).primary_action,
    {
        self.ability_list.clear_selection();
    }
}

} // verus!
