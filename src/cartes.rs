use vstd::prelude::*;

verus! {

/// A suit.
#[derive(Clone, Copy, Debug, PartialEq, Eq, Structural)]
pub enum Couleur {
    Carreau,
    Pique,
    Trefle,
    Coeur,
}

/// Value of a suited card, from the ace up to the king.
#[derive(Clone, Copy, Debug, PartialEq, Eq, Structural)]
pub enum Valeur {
    As,
    Deux,
    Trois,
    Quatre,
    Cinq,
    Six,
    Sept,
    Huit,
    Neuf,
    Dix,
    Valet,
    Cavalier,
    Dame,
    Roi,
}

/// A trump, from the excuse up to the twenty-one.
#[derive(Clone, Copy, Debug, PartialEq, Eq, Structural)]
pub enum Atout {
    Excuse,
    Un,
    Deux,
    Trois,
    Quatre,
    Cinq,
    Six,
    Sept,
    Huit,
    Neuf,
    Dix,
    Onze,
    Douze,
    Treize,
    Quatorze,
    Quinze,
    Seize,
    DixSept,
    Dixhuit,
    Dixneuf,
    Vingt,
    VingEtUn,
}

impl Valeur {
    /// Position of the valeur in the order of strength, weakest first.
    pub open spec fn rang(self) -> nat {
        match self {
            Valeur::As => 0,
            Valeur::Deux => 1,
            Valeur::Trois => 2,
            Valeur::Quatre => 3,
            Valeur::Cinq => 4,
            Valeur::Six => 5,
            Valeur::Sept => 6,
            Valeur::Huit => 7,
            Valeur::Neuf => 8,
            Valeur::Dix => 9,
            Valeur::Valet => 10,
            Valeur::Cavalier => 11,
            Valeur::Dame => 12,
            Valeur::Roi => 13,
        }
    }

    /// The valeur whose rank is `k`.
    pub open spec fn de_rang(k: nat) -> Valeur {
        if k == 0 {
            Valeur::As
        } else if k == 1 {
            Valeur::Deux
        } else if k == 2 {
            Valeur::Trois
        } else if k == 3 {
            Valeur::Quatre
        } else if k == 4 {
            Valeur::Cinq
        } else if k == 5 {
            Valeur::Six
        } else if k == 6 {
            Valeur::Sept
        } else if k == 7 {
            Valeur::Huit
        } else if k == 8 {
            Valeur::Neuf
        } else if k == 9 {
            Valeur::Dix
        } else if k == 10 {
            Valeur::Valet
        } else if k == 11 {
            Valeur::Cavalier
        } else if k == 12 {
            Valeur::Dame
        } else {
            Valeur::Roi
        }
    }

    /// The rank, as a machine integer.
    pub fn rang_u8(&self) -> (r: u8)
        ensures
            r == self.rang(),
    {
        match self {
            Valeur::As => 0,
            Valeur::Deux => 1,
            Valeur::Trois => 2,
            Valeur::Quatre => 3,
            Valeur::Cinq => 4,
            Valeur::Six => 5,
            Valeur::Sept => 6,
            Valeur::Huit => 7,
            Valeur::Neuf => 8,
            Valeur::Dix => 9,
            Valeur::Valet => 10,
            Valeur::Cavalier => 11,
            Valeur::Dame => 12,
            Valeur::Roi => 13,
        }
    }

    /// The card of rank `k`.
    pub fn depuis_rang(k: u8) -> (r: Valeur)
        requires
            k < 14,
        ensures
            r == Valeur::de_rang(k as nat),
            r.rang() == k,
    {
        if k == 0 {
            Valeur::As
        } else if k == 1 {
            Valeur::Deux
        } else if k == 2 {
            Valeur::Trois
        } else if k == 3 {
            Valeur::Quatre
        } else if k == 4 {
            Valeur::Cinq
        } else if k == 5 {
            Valeur::Six
        } else if k == 6 {
            Valeur::Sept
        } else if k == 7 {
            Valeur::Huit
        } else if k == 8 {
            Valeur::Neuf
        } else if k == 9 {
            Valeur::Dix
        } else if k == 10 {
            Valeur::Valet
        } else if k == 11 {
            Valeur::Cavalier
        } else if k == 12 {
            Valeur::Dame
        } else {
            Valeur::Roi
        }
    }
}

impl Atout {
    /// Position of the atout in the order of strength, weakest first.
    pub open spec fn rang(self) -> nat {
        match self {
            Atout::Excuse => 0,
            Atout::Un => 1,
            Atout::Deux => 2,
            Atout::Trois => 3,
            Atout::Quatre => 4,
            Atout::Cinq => 5,
            Atout::Six => 6,
            Atout::Sept => 7,
            Atout::Huit => 8,
            Atout::Neuf => 9,
            Atout::Dix => 10,
            Atout::Onze => 11,
            Atout::Douze => 12,
            Atout::Treize => 13,
            Atout::Quatorze => 14,
            Atout::Quinze => 15,
            Atout::Seize => 16,
            Atout::DixSept => 17,
            Atout::Dixhuit => 18,
            Atout::Dixneuf => 19,
            Atout::Vingt => 20,
            Atout::VingEtUn => 21,
        }
    }

    /// The atout whose rank is `k`.
    pub open spec fn de_rang(k: nat) -> Atout {
        if k == 0 {
            Atout::Excuse
        } else if k == 1 {
            Atout::Un
        } else if k == 2 {
            Atout::Deux
        } else if k == 3 {
            Atout::Trois
        } else if k == 4 {
            Atout::Quatre
        } else if k == 5 {
            Atout::Cinq
        } else if k == 6 {
            Atout::Six
        } else if k == 7 {
            Atout::Sept
        } else if k == 8 {
            Atout::Huit
        } else if k == 9 {
            Atout::Neuf
        } else if k == 10 {
            Atout::Dix
        } else if k == 11 {
            Atout::Onze
        } else if k == 12 {
            Atout::Douze
        } else if k == 13 {
            Atout::Treize
        } else if k == 14 {
            Atout::Quatorze
        } else if k == 15 {
            Atout::Quinze
        } else if k == 16 {
            Atout::Seize
        } else if k == 17 {
            Atout::DixSept
        } else if k == 18 {
            Atout::Dixhuit
        } else if k == 19 {
            Atout::Dixneuf
        } else if k == 20 {
            Atout::Vingt
        } else {
            Atout::VingEtUn
        }
    }

    /// The rank, as a machine integer.
    pub fn rang_u8(&self) -> (r: u8)
        ensures
            r == self.rang(),
    {
        match self {
            Atout::Excuse => 0,
            Atout::Un => 1,
            Atout::Deux => 2,
            Atout::Trois => 3,
            Atout::Quatre => 4,
            Atout::Cinq => 5,
            Atout::Six => 6,
            Atout::Sept => 7,
            Atout::Huit => 8,
            Atout::Neuf => 9,
            Atout::Dix => 10,
            Atout::Onze => 11,
            Atout::Douze => 12,
            Atout::Treize => 13,
            Atout::Quatorze => 14,
            Atout::Quinze => 15,
            Atout::Seize => 16,
            Atout::DixSept => 17,
            Atout::Dixhuit => 18,
            Atout::Dixneuf => 19,
            Atout::Vingt => 20,
            Atout::VingEtUn => 21,
        }
    }

    /// The card of rank `k`.
    pub fn depuis_rang(k: u8) -> (r: Atout)
        requires
            k < 22,
        ensures
            r == Atout::de_rang(k as nat),
            r.rang() == k,
    {
        if k == 0 {
            Atout::Excuse
        } else if k == 1 {
            Atout::Un
        } else if k == 2 {
            Atout::Deux
        } else if k == 3 {
            Atout::Trois
        } else if k == 4 {
            Atout::Quatre
        } else if k == 5 {
            Atout::Cinq
        } else if k == 6 {
            Atout::Six
        } else if k == 7 {
            Atout::Sept
        } else if k == 8 {
            Atout::Huit
        } else if k == 9 {
            Atout::Neuf
        } else if k == 10 {
            Atout::Dix
        } else if k == 11 {
            Atout::Onze
        } else if k == 12 {
            Atout::Douze
        } else if k == 13 {
            Atout::Treize
        } else if k == 14 {
            Atout::Quatorze
        } else if k == 15 {
            Atout::Quinze
        } else if k == 16 {
            Atout::Seize
        } else if k == 17 {
            Atout::DixSept
        } else if k == 18 {
            Atout::Dixhuit
        } else if k == 19 {
            Atout::Dixneuf
        } else if k == 20 {
            Atout::Vingt
        } else {
            Atout::VingEtUn
        }
    }
}

/// A card: a suited card, or a trump (the excuse counts among the trumps).
#[derive(Clone, Copy, Debug, PartialEq, Eq, Structural)]
pub enum Carte {
    CarteNorm(Couleur, Valeur),
    Atout(Atout),
}

impl Carte {
    /// Two cards can be ranked against each other unless they are the same suited card.
    pub open spec fn comparable(self, autre: Carte) -> bool {
        match (self, autre) {
            (Carte::CarteNorm(_, _), Carte::CarteNorm(_, _)) => self != autre,
            _ => true,
        }
    }

    /// Whether `self` beats `autre` when `appelee` is the suit led.
    pub open spec fn bat(self, autre: Carte, appelee: Couleur) -> bool {
        match (self, autre) {
            (Carte::CarteNorm(c, v), Carte::CarteNorm(c2, v2)) => {
                if c == c2 {
                    v.rang() > v2.rang()
                } else {
                    appelee == c
                }
            },
            (Carte::CarteNorm(_, _), Carte::Atout(_)) => false,
            (Carte::Atout(_), Carte::CarteNorm(_, _)) => true,
            (Carte::Atout(a), Carte::Atout(b)) => a.rang() > b.rang(),
        }
    }

    /// A trump beats any suited card and a lower trump; a suited card beats a
    /// lower card of its suit, and a card of another suit only when its own suit
    /// is the one led.
    pub fn plus_forte_que(&self, autre: &Carte, appelee: Couleur) -> (r: bool)
        requires
            self.comparable(*autre),
        ensures
            r == self.bat(*autre, appelee),
    {
        match self {
            Carte::CarteNorm(coul, val) => match autre {
                Carte::Atout(_) => false,
                Carte::CarteNorm(coul_autre, val_autre) => {
                    if *coul == *coul_autre {
                        val.rang_u8() > val_autre.rang_u8()
                    } else {
                        appelee == *coul
                    }
                },
            },
            Carte::Atout(at) => match autre {
                Carte::CarteNorm(_, _) => true,
                Carte::Atout(autre_at) => at.rang_u8() > autre_at.rang_u8(),
            },
        }
    }
}

/// The suit led by a trick: that of its first card, when it is a suited card.
pub open spec fn couleur_menee(cartes: Seq<Carte>) -> Option<Couleur> {
    if cartes.len() > 0 {
        match cartes[0] {
            Carte::CarteNorm(c, _) => Some(c),
            Carte::Atout(_) => None,
        }
    } else {
        None
    }
}

pub fn couleur_demandee(cartes: &[Carte]) -> (r: Option<Couleur>)
    ensures
        r == couleur_menee(cartes@),
{
    if cartes.len() > 0 {
        if let Carte::CarteNorm(coul, _) = cartes[0] {
            Some(coul)
        } else {
            None
        }
    } else {
        None
    }
}

/// A card answers `couleur`: a suited card of that suit, or any trump when
/// `couleur` is `None`.
pub open spec fn repond(carte: Carte, couleur: Option<Couleur>) -> bool {
    match (carte, couleur) {
        (Carte::CarteNorm(c, _), Some(d)) => c == d,
        (Carte::Atout(_), None) => true,
        _ => false,
    }
}

/// Some card of `cartes` answers `couleur`.
pub open spec fn possede(cartes: Seq<Carte>, couleur: Option<Couleur>) -> bool {
    exists|i: int| 0 <= i < cartes.len() && #[trigger] repond(cartes[i], couleur)
}

/// Whether some card of `cartes` is of suit `couleur`, or, for `None`, is a trump.
pub fn a_couleur(cartes: &[Carte], couleur: Option<Couleur>) -> (r: bool)
    ensures
        r == possede(cartes@, couleur),
{
    let mut i: usize = 0;
    while i < cartes.len()
        invariant
            0 <= i <= cartes@.len(),
            forall|j: int| 0 <= j < i ==> !#[trigger] repond(cartes@[j], couleur),
        decreases cartes@.len() - i,
    {
        let trouve = match cartes[i] {
            Carte::CarteNorm(c, _) => match couleur {
                Some(coul_demandee) => c == coul_demandee,
                None => false,
            },
            Carte::Atout(_) => couleur.is_none(),
        };
        if trouve {
            assert(repond(cartes@[i as int], couleur));
            return true;
        }
        i = i + 1;
    }
    false
}

/// `a` ranks above every trump of `cartes`.
pub open spec fn depasse(a: Atout, cartes: Seq<Carte>) -> bool {
    forall|i: int|
        0 <= i < cartes.len() ==> match #[trigger] cartes[i] {
            Carte::Atout(b) => a.rang() > b.rang(),
            Carte::CarteNorm(_, _) => true,
        }
}

/// `a` is a trump of `cartes` that no other trump of `cartes` outranks.
pub open spec fn est_atout_max(a: Atout, cartes: Seq<Carte>) -> bool {
    &&& cartes.contains(Carte::Atout(a))
    &&& forall|i: int|
        0 <= i < cartes.len() ==> match #[trigger] cartes[i] {
            Carte::Atout(b) => b.rang() <= a.rang(),
            Carte::CarteNorm(_, _) => true,
        }
}

/// The highest trump of `cartes`, if it holds one.
pub fn atout_max(cartes: &[Carte]) -> (r: Option<Atout>)
    ensures
        r is None <==> !possede(cartes@, None),
        r matches Some(a) ==> est_atout_max(a, cartes@),
{
    let mut max: Option<Atout> = None;
    let mut i: usize = 0;
    while i < cartes.len()
        invariant
            0 <= i <= cartes@.len(),
            max is None <==> !possede(cartes@.subrange(0, i as int), None),
            max matches Some(a) ==> est_atout_max(a, cartes@.subrange(0, i as int)),
        decreases cartes@.len() - i,
    {
        let ghost avant = cartes@.subrange(0, i as int);
        let ghost apres = cartes@.subrange(0, i + 1);
        let ghost ancien = max;
        assert(apres == avant.push(cartes@[i as int]));
        if let Carte::Atout(at) = cartes[i] {
            let plus_haut = match max {
                Some(at_max) => at.rang_u8() > at_max.rang_u8(),
                None => true,
            };
            if plus_haut {
                max = Some(at);
            }
            assert(repond(apres[i as int], None));
        } else {
            assert(forall|j: int| 0 <= j < apres.len() && repond(apres[j], None) ==> j < i && repond(avant[j], None));
        }
        assert(max matches Some(a) ==> apres.contains(Carte::Atout(a))) by {
            if let Some(a) = max {
                if avant.contains(Carte::Atout(a)) {
                    let k = choose|k: int| 0 <= k < avant.len() && avant[k] == Carte::Atout(a);
                    assert(apres[k] == Carte::Atout(a));
                } else {
                    assert(apres[i as int] == Carte::Atout(a));
                }
            }
        }
        assert(max matches Some(a) ==> forall|j: int|
            0 <= j < apres.len() ==> match #[trigger] apres[j] {
                Carte::Atout(b) => b.rang() <= a.rang(),
                Carte::CarteNorm(_, _) => true,
            }) by {
            if let Some(a) = max {
                assert forall|j: int| 0 <= j < apres.len() implies match #[trigger] apres[j] {
                    Carte::Atout(b) => b.rang() <= a.rang(),
                    Carte::CarteNorm(_, _) => true,
                } by {
                    if j < i {
                        assert(apres[j] == avant[j]);
                        if avant[j] is Atout {
                            assert(repond(avant[j], None));
                            assert(ancien is Some);
                        }
                    }
                }
            }
        }
        i = i + 1;
    }
    assert(cartes@.subrange(0, cartes@.len() as int) == cartes@);
    max
}

/// Some trump of `main` ranks above every trump already played, and one has been played.
pub open spec fn peut_surcouper(jouees: Seq<Carte>, main: Seq<Carte>) -> bool {
    &&& possede(jouees, None)
    &&& exists|i: int|
        0 <= i < main.len() && match #[trigger] main[i] {
            Carte::Atout(a) => depasse(a, jouees),
            Carte::CarteNorm(_, _) => false,
        }
}

/// Whether `carte`, held in `main`, may be played on the trick `jouees`.
///
/// The excuse is always playable. On the first trick, the opening card may be
/// anything but a card of the called king's suit other than the king itself.
/// Otherwise a player follows the suit led when they can; failing that they
/// must trump when they hold a trump, over-trumping when they can; a player
/// with neither may play anything.
pub open spec fn jouable(
    jouees: Seq<Carte>,
    main: Seq<Carte>,
    premier_tour: bool,
    roi_appele: Couleur,
    carte: Carte,
) -> bool {
    if carte == Carte::Atout(Atout::Excuse) {
        true
    } else if premier_tour && jouees.len() == 0 {
        match carte {
            Carte::CarteNorm(c, v) => c != roi_appele || v == Valeur::Roi,
            Carte::Atout(_) => true,
        }
    } else if couleur_menee(jouees) is Some && possede(main, couleur_menee(jouees)) {
        repond(carte, couleur_menee(jouees))
    } else if possede(main, None) {
        match carte {
            Carte::Atout(v) => !peut_surcouper(jouees, main) || depasse(v, jouees),
            Carte::CarteNorm(_, _) => false,
        }
    } else {
        true
    }
}

/// `jouable` on a given trick and hand, as a predicate on cards.
pub open spec fn critere(
    jouees: Seq<Carte>,
    main: Seq<Carte>,
    premier_tour: bool,
    roi_appele: Couleur,
) -> spec_fn(Carte) -> bool {
    |c: Carte| jouable(jouees, main, premier_tour, roi_appele, c)
}

/// The cards of `main` that may be played, in the order they are held.
pub open spec fn jouables(
    jouees: Seq<Carte>,
    main: Seq<Carte>,
    premier_tour: bool,
    roi_appele: Couleur,
) -> Seq<Carte> {
    main.filter(critere(jouees, main, premier_tour, roi_appele))
}

/// What the trick and the hand decide once for every card of the hand.
struct Situation {
    ouverture: bool,
    demandee: Option<Couleur>,
    suit: bool,
    a_atout: bool,
    max_table: Option<Atout>,
    surcoupe: bool,
}

impl Situation {
    spec fn decrit(self, jouees: Seq<Carte>, main: Seq<Carte>, premier_tour: bool) -> bool {
        &&& self.ouverture == (premier_tour && jouees.len() == 0)
        &&& self.demandee == couleur_menee(jouees)
        &&& self.suit == (couleur_menee(jouees) is Some && possede(main, couleur_menee(jouees)))
        &&& self.a_atout == possede(main, None)
        &&& self.surcoupe == peut_surcouper(jouees, main)
        &&& (self.max_table is None <==> !possede(jouees, None))
        &&& (self.max_table matches Some(m) ==> est_atout_max(m, jouees))
    }
}

fn est_jouable(
    sit: &Situation,
    roi_appele: Couleur,
    carte: Carte,
    Ghost(jouees): Ghost<Seq<Carte>>,
    Ghost(main): Ghost<Seq<Carte>>,
    Ghost(premier_tour): Ghost<bool>,
) -> (r: bool)
    requires
        sit.decrit(jouees, main, premier_tour),
    ensures
        r == jouable(jouees, main, premier_tour, roi_appele, carte),
{
    if carte == Carte::Atout(Atout::Excuse) {
        return true;
    }
    if sit.ouverture {
        match carte {
            Carte::CarteNorm(coul, val) => coul != roi_appele || val == Valeur::Roi,
            Carte::Atout(_) => true,
        }
    } else if sit.suit {
        match (carte, sit.demandee) {
            (Carte::CarteNorm(c, _), Some(coul)) => c == coul,
            _ => false,
        }
    } else if sit.a_atout {
        match carte {
            Carte::Atout(val) => {
                match sit.max_table {
                    Some(max) => {
                        let r = !sit.surcoupe || val.rang_u8() > max.rang_u8();
                        proof {
                            let k = choose|k: int| 0 <= k < jouees.len() && jouees[k] == Carte::Atout(max);
                            assert(jouees[k] == Carte::Atout(max));
                        }
                        r
                    },
                    None => {
                        assert forall|i: int| 0 <= i < jouees.len() implies jouees[i] is CarteNorm by {
                            if jouees[i] is Atout {
                                assert(repond(jouees[i], None));
                            }
                        }
                        true
                    },
                }
            },
            Carte::CarteNorm(_, _) => false,
        }
    } else {
        true
    }
}

/// The cards of `cartes_joueur` that may be played on the trick `cartes_jouees`,
/// in the order they are held. `roi_appele` is the suit of the called king.
pub fn cartes_jouables(
    cartes_jouees: &[Carte],
    cartes_joueur: &[Carte],
    premier_tour: bool,
    roi_appele: Couleur,
) -> (r: Vec<Carte>)
    ensures
        r@ == jouables(cartes_jouees@, cartes_joueur@, premier_tour, roi_appele),
{
    let ghost jouees = cartes_jouees@;
    let ghost main = cartes_joueur@;
    let demandee = couleur_demandee(cartes_jouees);
    let suit = match demandee {
        Some(coul) => a_couleur(cartes_joueur, Some(coul)),
        None => false,
    };
    let max_table = atout_max(cartes_jouees);
    let max_joueur = atout_max(cartes_joueur);
    let surcoupe = match (max_table, max_joueur) {
        (Some(m), Some(mj)) => mj.rang_u8() > m.rang_u8(),
        _ => false,
    };
    proof {
        if let Some(m) = max_table {
            let k = choose|k: int| 0 <= k < jouees.len() && jouees[k] == Carte::Atout(m);
            assert(jouees[k] == Carte::Atout(m));
            if let Some(mj) = max_joueur {
                let kj = choose|k: int| 0 <= k < main.len() && main[k] == Carte::Atout(mj);
                assert(main[kj] == Carte::Atout(mj));
                if peut_surcouper(jouees, main) {
                    let i = choose|i: int|
                        0 <= i < main.len() && match #[trigger] main[i] {
                            Carte::Atout(a) => depasse(a, jouees),
                            Carte::CarteNorm(_, _) => false,
                        };
                }
            } else {
                if peut_surcouper(jouees, main) {
                    let i = choose|i: int|
                        0 <= i < main.len() && match #[trigger] main[i] {
                            Carte::Atout(a) => depasse(a, jouees),
                            Carte::CarteNorm(_, _) => false,
                        };
                    assert(repond(main[i], None));
                }
            }
        }
    }
    let sit = Situation {
        ouverture: premier_tour && cartes_jouees.len() == 0,
        demandee,
        suit,
        a_atout: a_couleur(cartes_joueur, None),
        max_table,
        surcoupe,
    };
    let ghost pred = critere(jouees, main, premier_tour, roi_appele);
    let mut r: Vec<Carte> = Vec::new();
    let mut i: usize = 0;
    while i < cartes_joueur.len()
        invariant
            0 <= i <= main.len(),
            main == cartes_joueur@,
            pred == critere(jouees, main, premier_tour, roi_appele),
            sit.decrit(jouees, main, premier_tour),
            r@ == main.subrange(0, i as int).filter(pred),
        decreases main.len() - i,
    {
        let carte = cartes_joueur[i];
        let garde = est_jouable(&sit, roi_appele, carte, Ghost(jouees), Ghost(main), Ghost(premier_tour));
        let ghost avant = main.subrange(0, i as int).filter(pred);
        proof {
            let s = main.subrange(0, i + 1);
            assert(s.drop_last() == main.subrange(0, i as int));
            assert(s.last() == carte);
            assert(pred(carte) == garde);
            reveal_with_fuel(Seq::filter, 1);
            assert(s.filter(pred) == if garde { avant.push(carte) } else { avant });
        }
        if garde {
            r.push(carte);
        }
        i = i + 1;
    }
    assert(main.subrange(0, main.len() as int) == main);
    r
}

/// The side a player is on.
#[derive(Clone, Copy, Debug, PartialEq, Eq, Structural)]
pub enum Equipe {
    Attaque,
    Defense,
}

/// A player: a name, a side, the cards in hand and the cards of the tricks won.
pub struct Joueur {
    pub pseudo: String,
    pub equipe: Equipe,
    pub main: Vec<Carte>,
    pub plis: Vec<Carte>,
}

/// The cards on the table, each with the player who laid it, in the order played.
pub type Table = Vec<(Joueur, Carte)>;

fn copie_cartes(cartes: &Vec<Carte>) -> (r: Vec<Carte>)
    ensures
        r@ == cartes@,
{
    let mut r: Vec<Carte> = Vec::new();
    let mut i: usize = 0;
    while i < cartes.len()
        invariant
            0 <= i <= cartes@.len(),
            r@ == cartes@.subrange(0, i as int),
        decreases cartes@.len() - i,
    {
        r.push(cartes[i]);
        i = i + 1;
    }
    r
}

impl Joueur {
    /// A player with an empty hand and no trick won yet.
    pub fn new(pseudo: String, equipe: Equipe) -> (r: Joueur)
        ensures
            r.pseudo == pseudo,
            r.equipe == equipe,
            r.main@.len() == 0,
            r.plis@.len() == 0,
    {
        Joueur { pseudo, equipe, main: Vec::new(), plis: Vec::new() }
    }

    pub fn copie(&self) -> (r: Joueur)
        ensures
            r.pseudo == self.pseudo,
            r.equipe == self.equipe,
            r.main@ == self.main@,
            r.plis@ == self.plis@,
    {
        Joueur {
            pseudo: self.pseudo.clone(),
            equipe: self.equipe,
            main: copie_cartes(&self.main),
            plis: copie_cartes(&self.plis),
        }
    }
}

/// The cards of a table, in the order played.
pub open spec fn cartes_de(table: Seq<(Joueur, Carte)>) -> Seq<Carte> {
    table.map_values(|p: (Joueur, Carte)| p.1)
}

/// No card occurs twice.
pub open spec fn distinctes(cartes: Seq<Carte>) -> bool {
    forall|i: int, j: int| 0 <= i < j < cartes.len() ==> cartes[i] != cartes[j]
}

/// The suit against which a trick's cards are ranked: the suit led, or
/// diamonds when a trump was led.
pub open spec fn appelee_de(cartes: Seq<Carte>) -> Couleur {
    match couleur_menee(cartes) {
        Some(c) => c,
        None => Couleur::Carreau,
    }
}

/// Index of the card that holds the first `n` cards of a trick: each card in
/// turn takes the lead unless the card leading so far beats it.
pub open spec fn indice_gagnant(cartes: Seq<Carte>, appelee: Couleur, n: nat) -> int
    decreases n,
{
    if n <= 1 {
        0
    } else {
        let g = indice_gagnant(cartes, appelee, (n - 1) as nat);
        if cartes[g].bat(cartes[n - 1], appelee) {
            g
        } else {
            n - 1
        }
    }
}

/// The index of the card that wins the whole trick.
pub open spec fn gagnant(cartes: Seq<Carte>) -> int {
    indice_gagnant(cartes, appelee_de(cartes), cartes.len())
}

/// The player whose card wins the trick `table`.
pub fn gagnant_de_tour(table: &Table) -> (r: Joueur)
    requires
        table@.len() > 0,
        distinctes(cartes_de(table@)),
    ensures
        0 <= gagnant(cartes_de(table@)) < table@.len(),
        r.pseudo == table@[gagnant(cartes_de(table@))].0.pseudo,
        r.equipe == table@[gagnant(cartes_de(table@))].0.equipe,
        r.main@ == table@[gagnant(cartes_de(table@))].0.main@,
        r.plis@ == table@[gagnant(cartes_de(table@))].0.plis@,
{
    let ghost cartes = cartes_de(table@);
    let demandee = match table[0].1 {
        Carte::CarteNorm(coul, _) => coul,
        Carte::Atout(_) => Couleur::Carreau,
    };
    assert(cartes[0] == table@[0].1);
    assert(demandee == appelee_de(cartes));
    let mut g: usize = 0;
    let mut i: usize = 1;
    while i < table.len()
        invariant
            1 <= i <= table@.len(),
            cartes == cartes_de(table@),
            distinctes(cartes),
            demandee == appelee_de(cartes),
            g < i,
            g == indice_gagnant(cartes, demandee, i as nat),
        decreases table@.len() - i,
    {
        assert(cartes[g as int] == table@[g as int].1);
        assert(cartes[i as int] == table@[i as int].1);
        if !table[g].1.plus_forte_que(&table[i].1, demandee) {
            g = i;
        }
        i = i + 1;
    }
    table[g].0.copie()
}

/// Gives the winner of a trick all its cards.
pub fn range_pli(gagnant_tour: &mut Joueur, table: &Table)
    ensures
        final(gagnant_tour).plis@ == old(gagnant_tour).plis@ + cartes_de(table@),
        final(gagnant_tour).pseudo == old(gagnant_tour).pseudo,
        final(gagnant_tour).equipe == old(gagnant_tour).equipe,
        final(gagnant_tour).main@ == old(gagnant_tour).main@,
{
    let ghost debut = gagnant_tour.plis@;
    let mut i: usize = 0;
    while i < table.len()
        invariant
            0 <= i <= table@.len(),
            gagnant_tour.plis@ == debut + cartes_de(table@).subrange(0, i as int),
            gagnant_tour.pseudo == old(gagnant_tour).pseudo,
            gagnant_tour.equipe == old(gagnant_tour).equipe,
            gagnant_tour.main@ == old(gagnant_tour).main@,
        decreases table@.len() - i,
    {
        gagnant_tour.plis.push(table[i].1);
        assert(cartes_de(table@).subrange(0, i + 1) == cartes_de(table@).subrange(0, i as int).push(table@[i as int].1));
        i = i + 1;
    }
    assert(cartes_de(table@).subrange(0, table@.len() as int) == cartes_de(table@));
}

/// The suits in the order a fresh deck lists them.
pub open spec fn couleur_du_jeu(k: int) -> Couleur {
    if k == 0 {
        Couleur::Carreau
    } else if k == 1 {
        Couleur::Coeur
    } else if k == 2 {
        Couleur::Trefle
    } else {
        Couleur::Pique
    }
}

/// The card at position `i` of a fresh deck: the four suits in turn, each from
/// the ace up to the king, then the trumps from one to twenty-one, and the
/// excuse last.
pub open spec fn carte_du_jeu(i: int) -> Carte {
    if i < 56 {
        Carte::CarteNorm(couleur_du_jeu(i / 14), Valeur::de_rang((i % 14) as nat))
    } else if i < 77 {
        Carte::Atout(Atout::de_rang((i - 55) as nat))
    } else {
        Carte::Atout(Atout::Excuse)
    }
}

/// No two positions of a fresh deck hold the same card.
proof fn lemma_jeu_distinct(i: int, j: int)
    requires
        0 <= i < j < 78,
    ensures
        carte_du_jeu(i) != carte_du_jeu(j),
{
    if j < 56 {
        assert(i / 14 != j / 14 || i % 14 != j % 14);
        assert(Valeur::de_rang((i % 14) as nat).rang() == i % 14);
        assert(Valeur::de_rang((j % 14) as nat).rang() == j % 14);
    } else if j < 77 && i >= 56 {
        assert(Atout::de_rang((i - 55) as nat).rang() == i - 55);
        assert(Atout::de_rang((j - 55) as nat).rang() == j - 55);
    } else if j == 77 && i >= 56 {
        assert(Atout::de_rang((i - 55) as nat).rang() == i - 55);
    }
}

fn carte_numero(i: u8) -> (r: Carte)
    requires
        i < 78,
    ensures
        r == carte_du_jeu(i as int),
{
    if i < 56 {
        let coul = if i / 14 == 0 {
            Couleur::Carreau
        } else if i / 14 == 1 {
            Couleur::Coeur
        } else if i / 14 == 2 {
            Couleur::Trefle
        } else {
            Couleur::Pique
        };
        Carte::CarteNorm(coul, Valeur::depuis_rang(i % 14))
    } else if i < 77 {
        Carte::Atout(Atout::depuis_rang(i - 55))
    } else {
        Carte::Atout(Atout::Excuse)
    }
}

/// A full deck of 78 cards, in order.
pub fn creer_jeu() -> (r: Vec<Carte>)
    ensures
        r@.len() == 78,
        forall|i: int| 0 <= i < 78 ==> #[trigger] r@[i] == carte_du_jeu(i),
        distinctes(r@),
{
    let mut jeu: Vec<Carte> = Vec::with_capacity(78);
    let mut i: u8 = 0;
    while i < 78
        invariant
            i <= 78,
            jeu@.len() == i,
            forall|k: int| 0 <= k < i ==> #[trigger] jeu@[k] == carte_du_jeu(k),
        decreases 78 - i,
    {
        jeu.push(carte_numero(i));
        i = i + 1;
    }
    assert forall|i: int, j: int| 0 <= i < j < jeu@.len() implies jeu@[i] != jeu@[j] by {
        lemma_jeu_distinct(i, j);
    }
    jeu
}

} // verus!
