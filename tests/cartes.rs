use tarot::cartes::{
    a_couleur, atout_max, cartes_jouables, couleur_demandee, creer_jeu, gagnant_de_tour,
    range_pli, Atout, Carte, Couleur, Equipe, Joueur, Valeur,
};
use tarot::menu::{transition_menu, EvenementMenu, TransitionMenu};

fn norm(v: Valeur, c: Couleur) -> Carte {
    Carte::CarteNorm(c, v)
}

fn atout(a: Atout) -> Carte {
    Carte::Atout(a)
}

#[test]
fn test_creer_jeu() {
    let jeu = creer_jeu();
    assert_eq!(jeu.len(), 78);
    assert_eq!(jeu[10], norm(Valeur::Valet, Couleur::Carreau));
}

#[test]
fn creer_jeu_order_of_suits_and_trumps() {
    let jeu = creer_jeu();
    assert_eq!(jeu[0], norm(Valeur::As, Couleur::Carreau));
    assert_eq!(jeu[14], norm(Valeur::As, Couleur::Coeur));
    assert_eq!(jeu[28], norm(Valeur::As, Couleur::Trefle));
    assert_eq!(jeu[55], norm(Valeur::Roi, Couleur::Pique));
    assert_eq!(jeu[56], atout(Atout::Un));
    assert_eq!(jeu[76], atout(Atout::VingEtUn));
    assert_eq!(jeu[77], atout(Atout::Excuse));
    for i in 0..jeu.len() {
        for j in (i + 1)..jeu.len() {
            assert_ne!(jeu[i], jeu[j]);
        }
    }
}

#[test]
fn test_plus_forte_que() {
    assert!(norm(Valeur::Roi, Couleur::Coeur).plus_forte_que(&norm(Valeur::Dame, Couleur::Coeur), Couleur::Coeur));
    assert!(norm(Valeur::Valet, Couleur::Coeur).plus_forte_que(&norm(Valeur::Six, Couleur::Coeur), Couleur::Coeur));
    assert!(norm(Valeur::Deux, Couleur::Pique).plus_forte_que(&norm(Valeur::Dame, Couleur::Coeur), Couleur::Pique));
    assert!(atout(Atout::Vingt).plus_forte_que(&atout(Atout::Dix), Couleur::Carreau));
}

#[test]
fn plus_forte_que_losing_cases() {
    assert!(!norm(Valeur::Dame, Couleur::Coeur).plus_forte_que(&norm(Valeur::Roi, Couleur::Coeur), Couleur::Coeur));
    assert!(!norm(Valeur::Roi, Couleur::Pique).plus_forte_que(&atout(Atout::Un), Couleur::Pique));
    assert!(atout(Atout::Excuse).plus_forte_que(&norm(Valeur::Roi, Couleur::Pique), Couleur::Pique));
    assert!(!norm(Valeur::Roi, Couleur::Trefle).plus_forte_que(&norm(Valeur::Deux, Couleur::Pique), Couleur::Pique));
}

#[test]
fn test_couleur_demandee() {
    assert_eq!(
        couleur_demandee(&[norm(Valeur::Roi, Couleur::Coeur), atout(Atout::Dix)]),
        Some(Couleur::Coeur)
    );
}

#[test]
fn couleur_demandee_trump_led_or_empty() {
    assert_eq!(couleur_demandee(&[atout(Atout::Dix), norm(Valeur::Roi, Couleur::Coeur)]), None);
    assert_eq!(couleur_demandee(&[]), None);
}

#[test]
fn a_couleur_and_atout_max() {
    let main = [norm(Valeur::Deux, Couleur::Carreau), atout(Atout::Trois), atout(Atout::Douze)];
    assert!(a_couleur(&main, Some(Couleur::Carreau)));
    assert!(!a_couleur(&main, Some(Couleur::Pique)));
    assert!(a_couleur(&main, None));
    assert!(!a_couleur(&[norm(Valeur::Deux, Couleur::Carreau)], None));
    assert_eq!(atout_max(&main), Some(Atout::Douze));
    assert_eq!(atout_max(&[atout(Atout::Excuse)]), Some(Atout::Excuse));
    assert_eq!(atout_max(&[norm(Valeur::Roi, Couleur::Coeur)]), None);
    assert_eq!(atout_max(&[]), None);
}

#[test]
fn test_cartes_jouables() {
    let jouables = cartes_jouables(
        &[
            norm(Valeur::Trois, Couleur::Carreau),
            norm(Valeur::Six, Couleur::Carreau),
            norm(Valeur::Sept, Couleur::Carreau),
        ],
        &[
            norm(Valeur::Deux, Couleur::Carreau),
            norm(Valeur::Trois, Couleur::Coeur),
            atout(Atout::Trois),
            atout(Atout::Douze),
        ],
        false,
        Couleur::Carreau,
    );
    assert_eq!(jouables, vec![norm(Valeur::Deux, Couleur::Carreau)]);

    let jouables = cartes_jouables(
        &[
            norm(Valeur::Trois, Couleur::Carreau),
            norm(Valeur::Six, Couleur::Carreau),
            norm(Valeur::Sept, Couleur::Carreau),
        ],
        &[
            norm(Valeur::Deux, Couleur::Carreau),
            norm(Valeur::Trois, Couleur::Coeur),
            atout(Atout::Trois),
            atout(Atout::Douze),
            atout(Atout::Excuse),
        ],
        false,
        Couleur::Carreau,
    );
    assert_eq!(jouables, vec![norm(Valeur::Deux, Couleur::Carreau), atout(Atout::Excuse)]);
}

#[test]
fn cartes_jouables_must_trump_and_overtrump() {
    let main = [
        norm(Valeur::Trois, Couleur::Coeur),
        atout(Atout::Trois),
        atout(Atout::Douze),
    ];
    let jouees = [norm(Valeur::Six, Couleur::Carreau), atout(Atout::Dix)];
    assert_eq!(cartes_jouables(&jouees, &main, false, Couleur::Pique), vec![atout(Atout::Douze)]);

    let jouees = [norm(Valeur::Six, Couleur::Carreau), atout(Atout::Quinze)];
    assert_eq!(
        cartes_jouables(&jouees, &main, false, Couleur::Pique),
        vec![atout(Atout::Trois), atout(Atout::Douze)]
    );

    let jouees = [norm(Valeur::Six, Couleur::Carreau)];
    let sans_atout = [norm(Valeur::Trois, Couleur::Coeur), norm(Valeur::Roi, Couleur::Pique)];
    assert_eq!(cartes_jouables(&jouees, &sans_atout, false, Couleur::Pique), sans_atout.to_vec());
}

#[test]
fn cartes_jouables_opening_the_first_trick() {
    let main = [
        norm(Valeur::Trois, Couleur::Coeur),
        norm(Valeur::Roi, Couleur::Coeur),
        norm(Valeur::Dame, Couleur::Pique),
        atout(Atout::Un),
    ];
    assert_eq!(
        cartes_jouables(&[], &main, true, Couleur::Coeur),
        vec![norm(Valeur::Roi, Couleur::Coeur), norm(Valeur::Dame, Couleur::Pique), atout(Atout::Un)]
    );
}

fn joueur(pseudo: &str, equipe: Equipe) -> Joueur {
    Joueur::new(pseudo.to_string(), equipe)
}

#[test]
fn test_gagnant_de_tour() {
    assert_eq!(
        gagnant_de_tour(&vec![
            (joueur("Johan", Equipe::Attaque), atout(Atout::Quinze)),
            (joueur("Mathis", Equipe::Defense), norm(Valeur::Six, Couleur::Pique)),
            (joueur("Clara", Equipe::Defense), norm(Valeur::Sept, Couleur::Pique)),
            (joueur("Pénélope", Equipe::Defense), atout(Atout::Treize)),
            (joueur("Théo", Equipe::Defense), norm(Valeur::Deux, Couleur::Carreau)),
        ])
        .pseudo,
        "Johan".to_owned()
    );
}

#[test]
fn gagnant_de_tour_suit_led_and_trump() {
    let table = vec![
        (joueur("Johan", Equipe::Attaque), norm(Valeur::Six, Couleur::Pique)),
        (joueur("Mathis", Equipe::Defense), norm(Valeur::Roi, Couleur::Coeur)),
        (joueur("Clara", Equipe::Defense), norm(Valeur::Dame, Couleur::Pique)),
    ];
    let g = gagnant_de_tour(&table);
    assert_eq!(g.pseudo, "Clara");
    assert!(g.equipe == Equipe::Defense);

    let table = vec![
        (joueur("Johan", Equipe::Attaque), norm(Valeur::Six, Couleur::Pique)),
        (joueur("Mathis", Equipe::Defense), atout(Atout::Un)),
        (joueur("Clara", Equipe::Defense), norm(Valeur::Roi, Couleur::Pique)),
    ];
    assert_eq!(gagnant_de_tour(&table).pseudo, "Mathis");
}

#[test]
fn range_pli_takes_every_card() {
    let table = vec![
        (joueur("Johan", Equipe::Attaque), norm(Valeur::Six, Couleur::Pique)),
        (joueur("Mathis", Equipe::Defense), atout(Atout::Un)),
    ];
    let mut g = joueur("Mathis", Equipe::Defense);
    g.plis.push(atout(Atout::Excuse));
    range_pli(&mut g, &table);
    assert_eq!(g.plis, vec![atout(Atout::Excuse), norm(Valeur::Six, Couleur::Pique), atout(Atout::Un)]);
    assert_eq!(g.pseudo, "Mathis");
}

#[test]
fn menu_transitions() {
    let f = |fermeture_demandee, echap| EvenementMenu::Fenetre { fermeture_demandee, echap };
    assert_eq!(transition_menu(f(true, false)), TransitionMenu::Quitter);
    assert_eq!(transition_menu(f(false, true)), TransitionMenu::Quitter);
    assert_eq!(transition_menu(f(false, false)), TransitionMenu::Aucune);
    assert_eq!(transition_menu(EvenementMenu::Clic { sur_jouer: true }), TransitionMenu::LancerPartie);
    assert_eq!(transition_menu(EvenementMenu::Clic { sur_jouer: false }), TransitionMenu::Aucune);
    assert_eq!(transition_menu(EvenementMenu::AutreUi), TransitionMenu::Aucune);
    assert_eq!(transition_menu(EvenementMenu::Entree), TransitionMenu::Aucune);
}
