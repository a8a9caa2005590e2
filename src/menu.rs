use vstd::prelude::*;

verus! {

/// What the main menu is told, reduced to the facts it decides on.
#[derive(Clone, Copy, Debug, PartialEq, Eq, Structural)]
pub enum EvenementMenu {
    /// A window event: whether closing was requested, whether Escape is pressed.
    Fenetre { fermeture_demandee: bool, echap: bool },
    /// A click on an interface element; `sur_jouer` when it is the play button.
    Clic { sur_jouer: bool },
    /// Any other interface event.
    AutreUi,
    /// A raw input event.
    Entree,
}

/// Where the main menu goes next.
#[derive(Clone, Copy, Debug, PartialEq, Eq, Structural)]
pub enum TransitionMenu {
    /// Stay on the menu.
    Aucune,
    /// Leave the application.
    Quitter,
    /// Push a new game on top of the menu.
    LancerPartie,
}

/// The menu quits when the window is asked to close or Escape is pressed, and
/// starts a game on a click on the play button; anything else leaves it be.
pub fn transition_menu(evenement: EvenementMenu) -> (r: TransitionMenu)
    ensures
        r == match evenement {
            EvenementMenu::Fenetre { fermeture_demandee, echap } => if fermeture_demandee || echap {
                TransitionMenu::Quitter
            } else {
                TransitionMenu::Aucune
            },
            EvenementMenu::Clic { sur_jouer } => if sur_jouer {
                TransitionMenu::LancerPartie
            } else {
                TransitionMenu::Aucune
            },
            _ => TransitionMenu::Aucune,
        },
{
    match evenement {
        EvenementMenu::Fenetre { fermeture_demandee, echap } => {
            if fermeture_demandee || echap {
                TransitionMenu::Quitter
            } else {
                TransitionMenu::Aucune
            }
        },
        EvenementMenu::Clic { sur_jouer } => {
            if sur_jouer {
                TransitionMenu::LancerPartie
            } else {
                TransitionMenu::Aucune
            }
        },
        EvenementMenu::AutreUi => TransitionMenu::Aucune,
        EvenementMenu::Entree => TransitionMenu::Aucune,
    }
}

} // verus!
