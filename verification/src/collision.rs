//! Axis-aligned bounding-box collision detection.
//!
//! Overlap uses closed intervals on both axes: touching edges count as
//! overlapping. A rectangle with a zero-size component never overlaps
//! anything.

use vstd::prelude::*;

use crate::objects::MovingRect;

verus! {

/// Tags one participant of a collision: the moving entity, or an obstacle
/// identified by its index in the obstacle list handed to
/// [`gather_contacts`].
#[derive(Copy, Clone, PartialEq, Eq, Structural, Debug)]
pub enum ContactID {
    Obstacle(usize),
    Player,
}

/// A pair of colliding participants, produced fresh by each collision query.
#[derive(Copy, Clone, PartialEq, Eq, Structural, Debug)]
pub struct Contact(pub ContactID, pub ContactID);

impl Contact {
    pub fn get_ids(&self) -> (r: (ContactID, ContactID))
        ensures
            r == (self.0, self.1),
    {
        (self.0, self.1)
    }
}

/// Closed-interval AABB overlap: the x-intervals intersect and the
/// y-intervals intersect, and neither rectangle is degenerate (a zero width
/// or height never overlaps anything).
pub open spec fn rects_overlap(a: MovingRect, b: MovingRect) -> bool {
    &&& a.size.x > 0
    &&& a.size.y > 0
    &&& b.size.x > 0
    &&& b.size.y > 0
    &&& a.pos.x <= b.pos.x + b.size.x
    &&& b.pos.x <= a.pos.x + a.size.x
    &&& a.pos.y <= b.pos.y + b.size.y
    &&& b.pos.y <= a.pos.y + a.size.y
}

/// Overlap is symmetric in its two rectangles.
pub proof fn lemma_overlap_symmetric(a: MovingRect, b: MovingRect)
    ensures
        rects_overlap(a, b) == rects_overlap(b, a),
{
}

/// A rectangle with width or height zero (or negative) never overlaps any
/// other rectangle, in either argument order.
pub proof fn lemma_zero_size_never_overlaps(a: MovingRect, b: MovingRect)
    requires
        a.size.x <= 0 || a.size.y <= 0,
    ensures
        !rects_overlap(a, b),
        !rects_overlap(b, a),
{
}

/// Decides [`rects_overlap`] on concrete rectangles.
pub fn overlap(a: &MovingRect, b: &MovingRect) -> (r: bool)
    ensures
        r == rects_overlap(*a, *b),
{
    a.size.x > 0 && a.size.y > 0 && b.size.x > 0 && b.size.y > 0
        && (a.pos.x as i64) <= (b.pos.x as i64) + (b.size.x as i64)
        && (b.pos.x as i64) <= (a.pos.x as i64) + (a.size.x as i64)
        && (a.pos.y as i64) <= (b.pos.y as i64) + (b.size.y as i64)
        && (b.pos.y as i64) <= (a.pos.y as i64) + (a.size.y as i64)
}

/// The contacts reported for `player` against `obstacles[0..k]`: one
/// `Contact(Player, Obstacle(i))` for each overlapping obstacle `i`, in
/// obstacle input order.
pub open spec fn contacts_spec(player: MovingRect, obstacles: Seq<MovingRect>, k: int) -> Seq<
    Contact,
>
    decreases k,
{
    if k <= 0 {
        Seq::empty()
    } else if rects_overlap(player, obstacles[k - 1]) {
        contacts_spec(player, obstacles, k - 1).push(
            Contact(ContactID::Player, ContactID::Obstacle((k - 1) as usize)),
        )
    } else {
        contacts_spec(player, obstacles, k - 1)
    }
}

/// Reports, in obstacle input order, one contact per obstacle whose box
/// overlaps the player's box; non-overlapping pairs produce nothing. The
/// query is pure: it mutates neither the player nor the obstacles.
pub fn gather_contacts(player: &MovingRect, obstacles: &[MovingRect]) -> (contacts: Vec<Contact>)
    ensures
        contacts@ == contacts_spec(*player, obstacles@, obstacles@.len() as int),
{
    let mut contacts: Vec<Contact> = Vec::new();
    let n = obstacles.len();
    for i in 0..n
        invariant
            n == obstacles@.len(),
            contacts@ == contacts_spec(*player, obstacles@, i as int),
    {
        if overlap(player, &obstacles[i]) {
            contacts.push(Contact(ContactID::Player, ContactID::Obstacle(i)));
        }
    }
    contacts
}

/// Membership in the result of [`gather_contacts`]: obstacle `i` is reported
/// if and only if it overlaps the player.
pub proof fn lemma_contacts_complete(player: MovingRect, obstacles: Seq<MovingRect>, i: int)
    requires
        0 <= i < obstacles.len(),
        obstacles.len() <= usize::MAX,
    ensures
        contacts_spec(player, obstacles, obstacles.len() as int).contains(
            Contact(ContactID::Player, ContactID::Obstacle(i as usize)),
        ) == rects_overlap(player, obstacles[i]),
    decreases obstacles.len(),
{
    lemma_contacts_membership(player, obstacles, obstacles.len() as int, i);
}

proof fn lemma_contacts_membership(player: MovingRect, obstacles: Seq<MovingRect>, k: int, i: int)
    requires
        0 <= i <= usize::MAX,
        k <= obstacles.len(),
        obstacles.len() <= usize::MAX,
    ensures
        contacts_spec(player, obstacles, k).contains(
            Contact(ContactID::Player, ContactID::Obstacle(i as usize)),
        ) == (i < k && rects_overlap(player, obstacles[i])),
    decreases k,
{
    if k > 0 {
        lemma_contacts_membership(player, obstacles, k - 1, i);
        let prev = contacts_spec(player, obstacles, k - 1);
        let c = Contact(ContactID::Player, ContactID::Obstacle(i as usize));
        if rects_overlap(player, obstacles[k - 1]) {
            let cur = prev.push(Contact(ContactID::Player, ContactID::Obstacle((k - 1) as usize)));
            assert(cur.contains(c) <==> (prev.contains(c) || c == Contact(
                ContactID::Player,
                ContactID::Obstacle((k - 1) as usize),
            ))) by {
                if cur.contains(c) {
                    let j = choose|j: int| 0 <= j < cur.len() && cur[j] == c;
                    if j < prev.len() {
                        assert(prev.contains(c));
                    }
                }
                if prev.contains(c) {
                    let j = choose|j: int| 0 <= j < prev.len() && prev[j] == c;
                    assert(cur[j] == c);
                }
                assert(cur[cur.len() - 1] == Contact(
                    ContactID::Player,
                    ContactID::Obstacle((k - 1) as usize),
                ));
            }
        }
    }
}

} // verus!
