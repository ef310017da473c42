//! The list of displays to choose from: the real ones, the largest first.
use crate::adb::DisplayInfo;
use vstd::prelude::*;

verus! {

impl DisplayInfo {
    /// The number of its pixels.
    pub open spec fn area(self) -> int {
        self.width * self.height
    }

    /// Whether it is a real display, and not one of the placeholders of a single pixel.
    pub open spec fn genuine(self) -> bool {
        self.width >= 2 && self.height >= 2
    }
}

/// The number of its pixels.
fn area_of(d: &DisplayInfo) -> (r: u64)
    ensures
        r == d.area(),
{
    proof {
        let (w, h) = (d.width as int, d.height as int);
        assert(0 <= w * h <= 0xffff_ffff * 0xffff_ffff) by (nonlinear_arith)
            requires
                0 <= w <= 0xffff_ffff,
                0 <= h <= 0xffff_ffff,
        ;
    }
    d.width as u64 * d.height as u64
}

/// The real displays, in order.
pub open spec fn genuine_ones(s: Seq<DisplayInfo>) -> Seq<DisplayInfo>
    decreases s.len(),
{
    if s.len() == 0 {
        seq![]
    } else if s.last().genuine() {
        genuine_ones(s.drop_last()).push(s.last())
    } else {
        genuine_ones(s.drop_last())
    }
}

/// `s`, of which no display is smaller than one before it, with `d` behind all that are at least
/// as large.
pub open spec fn inserted(s: Seq<DisplayInfo>, d: DisplayInfo) -> Seq<DisplayInfo>
    decreases s.len(),
{
    if s.len() == 0 || s.last().area() >= d.area() {
        s.push(d)
    } else {
        inserted(s.drop_last(), d).push(s.last())
    }
}

/// The displays, the largest first. Those of one size stay in order.
pub open spec fn largest_first(s: Seq<DisplayInfo>) -> Seq<DisplayInfo>
    decreases s.len(),
{
    if s.len() == 0 {
        seq![]
    } else {
        inserted(largest_first(s.drop_last()), s.last())
    }
}

/// Whether no display is larger than one before it.
pub open spec fn is_sorted(s: Seq<DisplayInfo>) -> bool {
    forall|i: int, j: int|
        0 <= i <= j < s.len() ==> #[trigger] s[i].area() >= #[trigger] s[j].area()
}

/// The displays of one size, in order.
pub open spec fn of_area(s: Seq<DisplayInfo>, area: int) -> Seq<DisplayInfo>
    decreases s.len(),
{
    if s.len() == 0 {
        seq![]
    } else if s.last().area() == area {
        of_area(s.drop_last(), area).push(s.last())
    } else {
        of_area(s.drop_last(), area)
    }
}

/// What inserting does.
proof fn lemma_inserted(s: Seq<DisplayInfo>, d: DisplayInfo)
    requires
        is_sorted(s),
    ensures
        inserted(s, d).to_multiset() =~= s.to_multiset().insert(d),
        is_sorted(inserted(s, d)),
        forall|i: int|
            0 <= i < inserted(s, d).len() ==> #[trigger] inserted(s, d)[i] == d || s.contains(
                inserted(s, d)[i],
            ),
        forall|area: int| #[trigger]
            of_area(inserted(s, d), area) =~= of_area(s.push(d), area),
    decreases s.len(),
{
    broadcast use vstd::seq_lib::group_to_multiset_ensures;

    if s.len() == 0 || s.last().area() >= d.area() {
        let t = s.push(d);
        assert forall|i: int, j: int| 0 <= i <= j < t.len() implies #[trigger] t[i].area()
            >= #[trigger] t[j].area() by {
            if j == s.len() && i < j {
                assert(s[i].area() >= s[s.len() - 1].area());
            }
        }
        assert forall|i: int| 0 <= i < t.len() implies #[trigger] t[i] == d || s.contains(
            t[i],
        ) by {
            if i < s.len() {
                assert(s[i] == t[i]);
            }
        }
    } else {
        let head = s.drop_last();
        let last = s.last();
        assert(is_sorted(head));
        lemma_inserted(head, d);
        let r = inserted(head, d);
        let t = r.push(last);
        assert(s =~= head.push(last));
        assert forall|i: int, j: int| 0 <= i <= j < t.len() implies #[trigger] t[i].area()
            >= #[trigger] t[j].area() by {
            if j == r.len() && i < j {
                assert(t[i] == r[i]);
                if r[i] != d {
                    assert(head.contains(r[i]));
                    let k = choose|k: int| 0 <= k < head.len() && head[k] == r[i];
                    assert(s[k].area() >= s[s.len() - 1].area());
                }
            }
        }
        assert forall|i: int| 0 <= i < t.len() implies #[trigger] t[i] == d || s.contains(
            t[i],
        ) by {
            if i < r.len() {
                assert(t[i] == r[i]);
                if r[i] != d {
                    let k = choose|k: int| 0 <= k < head.len() && head[k] == r[i];
                    assert(s[k] == t[i]);
                }
            } else {
                assert(s[s.len() - 1] == t[i]);
            }
        }
        assert forall|area: int| #[trigger] of_area(t, area) =~= of_area(s.push(d), area) by {
            assert(t.drop_last() =~= r);
            assert(s.push(d).drop_last() =~= s);
            assert(head.push(d).drop_last() =~= head);
            assert(of_area(r, area) =~= of_area(head.push(d), area));
            assert(of_area(head.push(d), area) == if d.area() == area {
                of_area(head, area).push(d)
            } else {
                of_area(head, area)
            });
            assert(of_area(s, area) == if last.area() == area {
                of_area(head, area).push(last)
            } else {
                of_area(head, area)
            });
            assert(of_area(s.push(d), area) == if d.area() == area {
                of_area(s, area).push(d)
            } else {
                of_area(s, area)
            });
        }
    }
}

/// The displays are the same, none is larger than one before it, and those of one size stay in
/// order.
pub proof fn law_largest_first_is_a_stable_sort(s: Seq<DisplayInfo>)
    ensures
        largest_first(s).to_multiset() =~= s.to_multiset(),
        is_sorted(largest_first(s)),
        forall|i: int, j: int|
            0 <= i <= j < s.len() ==> (#[trigger] largest_first(s)[i]).width
                * largest_first(s)[i].height >= (#[trigger] largest_first(s)[j]).width
                * largest_first(s)[j].height,
        largest_first(s).len() == s.len(),
        forall|area: int| #[trigger]
            of_area(largest_first(s), area) =~= of_area(s, area),
    decreases s.len(),
{
    broadcast use vstd::seq_lib::group_to_multiset_ensures;

    if s.len() > 0 {
        let head = s.drop_last();
        law_largest_first_is_a_stable_sort(head);
        let done = largest_first(head);
        lemma_inserted(done, s.last());
        assert(s =~= head.push(s.last()));
        assert forall|area: int| #[trigger]
            of_area(largest_first(s), area) =~= of_area(s, area) by {
            assert(done.push(s.last()).drop_last() =~= done);
            assert(of_area(done, area) =~= of_area(head, area));
            assert(of_area(inserted(done, s.last()), area) =~= of_area(
                done.push(s.last()),
                area,
            ));
        }
    }
    let list = largest_first(s);
    assert(list.len() == s.len()) by {
        list.to_multiset_ensures();
        s.to_multiset_ensures();
        assert(list.to_multiset() =~= s.to_multiset());
    }
    assert forall|i: int, j: int| 0 <= i <= j < s.len() implies (#[trigger] list[i]).width
        * list[i].height >= (#[trigger] list[j]).width * list[j].height by {
        assert(list[i].area() >= list[j].area());
    }
}

/// The real displays are those with at least two pixels on either side: each of them is kept, in
/// order, and no other.
pub proof fn law_real_displays_are_kept(s: Seq<DisplayInfo>)
    ensures
        genuine_ones(s) == s.filter(|d: DisplayInfo| d.width >= 2 && d.height >= 2),
    decreases s.len(),
{
    reveal(Seq::filter);
    if s.len() > 0 {
        law_real_displays_are_kept(s.drop_last());
    } else {
        assert(genuine_ones(s) =~= s.filter(|d: DisplayInfo| d.width >= 2 && d.height >= 2));
    }
}

/// Puts a display in its place.
fn insert(list: &mut Vec<DisplayInfo>, d: DisplayInfo)
    ensures
        final(list)@ == inserted(old(list)@, d),
{
    let ghost s = list@;
    let mut at: usize = list.len();
    assert(s.take(at as int) =~= s);
    assert(s.skip(at as int) =~= seq![]);
    assert(inserted(s, d) + seq![] =~= inserted(s, d));
    while at > 0 && area_of(&list[at - 1]) < area_of(&d)
        invariant
            list@ == s,
            at <= s.len(),
            inserted(s.take(at as int), d) + s.skip(at as int) =~= inserted(s, d),
        decreases at,
    {
        proof {
            let t = s.take(at as int);
            assert(t.drop_last() =~= s.take(at - 1));
            assert(t.last() == s[at - 1]);
            assert(s.skip(at - 1) =~= seq![s[at - 1]] + s.skip(at as int));
            assert(inserted(t.drop_last(), d).push(t.last()) + s.skip(at as int) =~= inserted(
                t.drop_last(),
                d,
            ) + (seq![t.last()] + s.skip(at as int)));
        }
        at = at - 1;
    }
    proof {
        let t = s.take(at as int);
        if at > 0 {
            assert(t.last() == s[at - 1]);
        }
        assert(inserted(t, d) =~= t.push(d));
        assert(s.insert(at as int, d) =~= t.push(d) + s.skip(at as int));
    }
    list.insert(at, d);
}

/// The displays to choose from: the real ones, the largest first.
pub fn choices(found: &Vec<DisplayInfo>) -> (r: Vec<DisplayInfo>)
    ensures
        r@ == largest_first(genuine_ones(found@)),
{
    let mut out: Vec<DisplayInfo> = Vec::new();
    let ghost all = found@;
    let mut i: usize = 0;
    assert(largest_first(genuine_ones(all.take(0))) =~= seq![]);
    while i < found.len()
        invariant
            all == found@,
            i <= found@.len(),
            out@ == largest_first(genuine_ones(all.take(i as int))),
        decreases found@.len() - i,
    {
        let d = found[i];
        proof {
            assert(all.take(i + 1).drop_last() =~= all.take(i as int));
            assert(all.take(i + 1).last() == d);
            let before = genuine_ones(all.take(i as int));
            assert(before.push(d).drop_last() =~= before);
        }
        if d.width >= 2 && d.height >= 2 {
            insert(&mut out, d);
        }
        i = i + 1;
    }
    assert(all.take(all.len() as int) =~= all);
    out
}

/// The display to mirror, of those in the list: the one that was chosen if it is there, else
/// display 0 if that is there, else the first; and without a list, the one that was chosen.
pub open spec fn choice_among(list: Seq<DisplayInfo>, chosen: u32) -> u32 {
    if exists|i: int| 0 <= i < list.len() && #[trigger] list[i].id == chosen {
        chosen
    } else if exists|i: int| 0 <= i < list.len() && #[trigger] list[i].id == 0 {
        0
    } else if list.len() > 0 {
        list[0].id
    } else {
        chosen
    }
}

/// Whether the list holds a display with this id.
pub fn has_display(list: &Vec<DisplayInfo>, id: u32) -> (r: bool)
    ensures
        r == exists|i: int| 0 <= i < list@.len() && #[trigger] list@[i].id == id,
{
    let mut i: usize = 0;
    while i < list.len()
        invariant
            i <= list@.len(),
            forall|j: int| 0 <= j < i ==> #[trigger] list@[j].id != id,
        decreases list@.len() - i,
    {
        if list[i].id == id {
            return true;
        }
        i = i + 1;
    }
    false
}

/// Chooses the display to mirror.
pub fn choose_display(list: &Vec<DisplayInfo>, chosen: u32) -> (r: u32)
    ensures
        r == choice_among(list@, chosen),
{
    if has_display(list, chosen) {
        chosen
    } else if has_display(list, 0) {
        0
    } else if list.len() > 0 {
        list[0].id
    } else {
        chosen
    }
}

/// The choice stands where it is listed or nothing is; else it falls on display 0 where that is
/// listed, and else on the largest.
pub proof fn law_choice_falls_back(found: Seq<DisplayInfo>, chosen: u32)
    ensures
        ({
            let list = largest_first(genuine_ones(found));
            let c = choice_among(list, chosen);
            &&& (exists|i: int| 0 <= i < list.len() && (#[trigger] list[i]).id == chosen) ==> c
                == chosen
            &&& list.len() == 0 ==> c == chosen
            &&& c != chosen && c != 0 ==> {
                &&& c == list[0].id
                &&& forall|i: int|
                    0 <= i < list.len() ==> (#[trigger] list[i]).id != chosen && list[i].id != 0
                &&& forall|i: int|
                    0 <= i < list.len() ==> list[0].width * list[0].height >= (
                    #[trigger] list[i]).width * list[i].height
            }
        }),
{
    let list = largest_first(genuine_ones(found));
    law_largest_first_is_a_stable_sort(genuine_ones(found));
    assert forall|i: int| 0 <= i < list.len() implies list[0].width * list[0].height >= (
    #[trigger] list[i]).width * list[i].height by {
        assert(list[0].area() >= list[i].area());
    }
}

/// The display to mirror is one of the list, wherever there is one.
pub proof fn law_choice_is_listed(list: Seq<DisplayInfo>, chosen: u32)
    requires
        list.len() > 0,
    ensures
        exists|i: int| 0 <= i < list.len() && #[trigger] list[i].id == choice_among(list, chosen),
        choice_among(list, choice_among(list, chosen)) == choice_among(list, chosen),
{
    assert(list[0].id == list[0].id);
}

} // verus!
