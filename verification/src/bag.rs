//! The randomized piece dispenser.
//!
//! The bag holds at most one piece of each of the seven kinds. Drawing from
//! an empty bag first refills it with a freshly shuffled full set, so across
//! any seven draws aligned to a refill every kind is dispensed exactly once.

use vstd::prelude::*;

use crate::pieces::{all_pieces, catalog_colors, is_piece_kind, Orientation, Piece, PieceColor};

verus! {

/// The colors of a sequence of pieces, in order.
pub open spec fn colors_of(s: Seq<Piece>) -> Seq<PieceColor> {
    s.map_values(|p: Piece| p.color)
}

/// A shuffled set of pending pieces; the next piece to be dispensed is the
/// last one.
pub struct Bag {
    pieces: Vec<Piece>,
}

impl View for Bag {
    type V = Seq<Piece>;

    closed spec fn view(&self) -> Seq<Piece> {
        self.pieces@
    }
}

impl Bag {
    /// The pending pieces are catalog pieces facing up, at most seven, with
    /// no two of the same kind.
    pub open spec fn wf(&self) -> bool {
        &&& self@.len() <= 7
        &&& forall|i: int|
            0 <= i < self@.len() ==> (#[trigger] self@[i]).matches_catalog() && self@[i].orientation
                == Orientation::Up
        &&& colors_of(self@).no_duplicates()
    }

    /// A bag holding a freshly shuffled piece of every kind.
    pub fn new() -> (b: Bag)
        ensures
            b.wf(),
            b@.len() == 7,
            forall|c: PieceColor| is_piece_kind(c) ==> colors_of(b@).contains(c),
    {
        Bag { pieces: refill() }
    }

    /// Dispense one piece. A non-empty bag pops its last pending piece; an
    /// empty bag refills with a freshly shuffled full set first, so the piece
    /// dispensed now and the six left pending together cover all seven kinds.
    pub fn next(&mut self) -> (p: Piece)
        requires
            old(self).wf(),
        ensures
            final(self).wf(),
            p.matches_catalog(),
            p.orientation == Orientation::Up,
            old(self)@.len() > 0 ==> final(self)@ == old(self)@.drop_last() && p == old(
                self,
            )@.last(),
            old(self)@.len() == 0 ==> {
                &&& final(self)@.len() == 6
                &&& colors_of(final(self)@).push(p.color).no_duplicates()
                &&& forall|c: PieceColor|
                    is_piece_kind(c) ==> colors_of(final(self)@).push(p.color).contains(c)
            },
    {
        if self.pieces.len() == 0 {
            self.pieces = refill();
        }
        let ghost full = self.pieces@;
        let p = self.pieces.pop().unwrap();
        proof {
            assert(colors_of(self.pieces@) =~= colors_of(full).drop_last());
            assert(colors_of(self.pieces@).push(p.color) =~= colors_of(full));
            assert(forall|i: int|
                0 <= i < self.pieces@.len() ==> self.pieces@[i] == full[i]);
        }
        p
    }
}

/// Relies on `rand::seq::SliceRandom::shuffle` with `rand::thread_rng`: it
/// permutes the slice in place, so exactly the elements that went in come
/// out, in some order.
#[verifier::external_body]
fn shuffle_pieces(v: &mut Vec<Piece>)
    ensures
        final(v)@.to_multiset() == old(v)@.to_multiset(),
{
    let mut rng = rand::thread_rng();
    rand::seq::SliceRandom::shuffle(v.as_mut_slice(), &mut rng);
}

/// The catalog colors are the seven piece kinds, each appearing once.
proof fn lemma_catalog_colors()
    ensures
        catalog_colors().len() == 7,
        catalog_colors().no_duplicates(),
        forall|c: PieceColor| is_piece_kind(c) <==> catalog_colors().contains(c),
{
    assert(catalog_colors()[0] == PieceColor::Yellow);
    assert(catalog_colors()[1] == PieceColor::Magenta);
    assert(catalog_colors()[2] == PieceColor::Cyan);
    assert(catalog_colors()[3] == PieceColor::Orange);
    assert(catalog_colors()[4] == PieceColor::Blue);
    assert(catalog_colors()[5] == PieceColor::Green);
    assert(catalog_colors()[6] == PieceColor::Red);
    assert forall|c: PieceColor| is_piece_kind(c) implies catalog_colors().contains(c) by {
        if c == PieceColor::Yellow {
            assert(catalog_colors()[0] == c);
        } else if c == PieceColor::Magenta {
            assert(catalog_colors()[1] == c);
        } else if c == PieceColor::Cyan {
            assert(catalog_colors()[2] == c);
        } else if c == PieceColor::Orange {
            assert(catalog_colors()[3] == c);
        } else if c == PieceColor::Blue {
            assert(catalog_colors()[4] == c);
        } else if c == PieceColor::Green {
            assert(catalog_colors()[5] == c);
        } else {
            assert(catalog_colors()[6] == c);
        }
    }
}

/// A freshly shuffled full set: one piece of every kind, in some order.
fn refill() -> (v: Vec<Piece>)
    ensures
        v@.len() == 7,
        forall|i: int|
            0 <= i < 7 ==> (#[trigger] v@[i]).matches_catalog() && v@[i].orientation
                == Orientation::Up,
        colors_of(v@).no_duplicates(),
        forall|c: PieceColor| is_piece_kind(c) ==> colors_of(v@).contains(c),
{
    let mut v = all_pieces();
    let ghost v0 = v@;
    shuffle_pieces(&mut v);
    proof {
        broadcast use vstd::seq_lib::group_to_multiset_ensures;

        lemma_catalog_colors();
        assert(colors_of(v0) =~= catalog_colors());
        // Distinct colors make the fresh pieces pairwise distinct.
        assert(v0.no_duplicates()) by {
            assert forall|i: int, j: int| 0 <= i < j < 7 implies v0[i] != v0[j] by {
                assert(colors_of(v0)[i] != colors_of(v0)[j]);
            }
        }
        // The shuffle kept the multiset, hence the length and distinctness.
        assert(v@.len() == v@.to_multiset().len());
        assert(v0.len() == v0.to_multiset().len());
        v0.lemma_multiset_has_no_duplicates();
        assert(forall|x: Piece|
            v@.to_multiset().contains(x) ==> v@.to_multiset().count(x) == 1);
        v@.lemma_multiset_has_no_duplicates_conv();
        // Every piece now in the vector came from the fresh set.
        assert forall|i: int| 0 <= i < 7 implies (#[trigger] v@[i]).matches_catalog() && v@[i].orientation
            == Orientation::Up by {
            assert(v@.contains(v@[i]));
            assert(v@.to_multiset().count(v@[i]) > 0);
            assert(v0.contains(v@[i]));
            let j = choose|j: int| 0 <= j < v0.len() && v0[j] == v@[i];
            assert(v0[j].matches_catalog());
        }
        // Distinct pieces of the catalog have distinct colors, since the
        // fresh set held exactly one piece of each color.
        assert(colors_of(v@).no_duplicates()) by {
            assert forall|i: int, j: int| 0 <= i < j < 7 implies colors_of(v@)[i] != colors_of(
                v@,
            )[j] by {
                assert(v@.contains(v@[i]));
                assert(v@.to_multiset().count(v@[i]) > 0);
                assert(v0.contains(v@[i]));
                assert(v@.contains(v@[j]));
                assert(v@.to_multiset().count(v@[j]) > 0);
                assert(v0.contains(v@[j]));
                let a = choose|a: int| 0 <= a < v0.len() && v0[a] == v@[i];
                let b = choose|b: int| 0 <= b < v0.len() && v0[b] == v@[j];
                assert(v@[i] != v@[j]);
                assert(a != b);
                assert(colors_of(v0)[a] != colors_of(v0)[b]);
            }
        }
        // Every kind is still present after the shuffle.
        assert forall|c: PieceColor| is_piece_kind(c) implies colors_of(v@).contains(c) by {
            let i = choose|i: int| 0 <= i < 7 && catalog_colors()[i] == c;
            assert(v0[i].color == c);
            assert(v0.contains(v0[i]));
            assert(v0.to_multiset().count(v0[i]) > 0);
            assert(v@.contains(v0[i]));
            let j = choose|j: int| 0 <= j < v@.len() && v@[j] == v0[i];
            assert(colors_of(v@)[j] == c);
        }
    }
    v
}

/// Bag fairness: any seven pieces drawn in one refill batch have pairwise
/// distinct kinds, so they dispense each of the seven kinds exactly once.
pub proof fn lemma_bag_fairness(kinds: Seq<PieceColor>)
    requires
        kinds.len() == 7,
        kinds.no_duplicates(),
        forall|i: int| 0 <= i < 7 ==> is_piece_kind(#[trigger] kinds[i]),
    ensures
        forall|c: PieceColor| is_piece_kind(c) ==> kinds.contains(c),
        forall|c: PieceColor| is_piece_kind(c) ==> kinds.to_multiset().count(c) == 1,
{
    broadcast use vstd::seq_lib::group_to_multiset_ensures;

    lemma_catalog_colors();
    catalog_colors().unique_seq_to_set();
    kinds.unique_seq_to_set();
    assert(kinds.to_set().subset_of(catalog_colors().to_set())) by {
        assert forall|c: PieceColor| kinds.to_set().contains(c) implies catalog_colors(
        ).to_set().contains(c) by {
            let i = choose|i: int| 0 <= i < kinds.len() && kinds[i] == c;
            assert(is_piece_kind(c));
        }
    }
    vstd::set_lib::lemma_subset_equality(kinds.to_set(), catalog_colors().to_set());
    assert forall|c: PieceColor| is_piece_kind(c) implies kinds.contains(c) by {
        assert(catalog_colors().to_set().contains(c));
        assert(kinds.to_set().contains(c));
    }
    kinds.lemma_multiset_has_no_duplicates();
    assert forall|c: PieceColor| is_piece_kind(c) implies kinds.to_multiset().count(c) == 1 by {
        assert(kinds.contains(c));
        assert(kinds.to_multiset().count(c) > 0);
    }
}

} // verus!

verus! {

impl Clone for Bag {
    /// Deep copy: the clone holds exactly the same pending pieces.
    fn clone(&self) -> (r: Self)
        ensures
            r@ == self@,
            r.wf() == self.wf(),
    {
        let mut pieces: Vec<Piece> = Vec::new();
        let mut i: usize = 0;
        while i < self.pieces.len()
            invariant
                i <= self.pieces@.len(),
                pieces@ == self.pieces@.take(i as int),
            decreases self.pieces@.len() - i,
        {
            pieces.push(self.pieces[i]);
            proof {
                assert(pieces@ =~= self.pieces@.take(i as int + 1));
            }
            i += 1;
        }
        proof {
            assert(pieces@ =~= self.pieces@);
        }
        Bag { pieces }
    }
}

} // verus!
