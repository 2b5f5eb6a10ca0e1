use vstd::prelude::*;
use vstd::std_specs::iter::IteratorSpec;

verus! {

/// The number of code points that a subset can draw on: the basic plane.
pub const PLANE: usize = 0x10000;

/// Whether a character belongs into a font subset: it lies beyond Latin-1 and
/// within the basic plane.
pub open spec fn in_subset_range(c: char) -> bool {
    0xFF < c as u32 && (c as u32) < 0x10000
}

/// The code points of the characters of `text` that belong into a subset.
pub open spec fn subset_code_points(text: Seq<char>) -> Set<u32> {
    Set::new(
        |code: u32|
            exists|i: int| 0 <= i < text.len() && in_subset_range(#[trigger] text[i]) && text[i] as u32 == code,
    )
}

/// Which code points of the basic plane are in use.
pub struct CharUsage {
    used: Vec<bool>,
}

impl View for CharUsage {
    type V = Set<u32>;

    closed spec fn view(&self) -> Set<u32> {
        Set::new(|code: u32| code < self.used.len() && self.used[code as int])
    }
}

impl CharUsage {
    /// There is a mark for every code point of the plane.
    pub closed spec fn wf(&self) -> bool {
        self.used.len() == PLANE
    }

    /// Nothing in use.
    pub fn new() -> (r: CharUsage)
        ensures
            r.wf(),
            r@ == Set::<u32>::empty(),
    {
        let mut used: Vec<bool> = Vec::new();
        while used.len() < PLANE
            invariant
                used.len() <= PLANE,
                forall|i: int| 0 <= i < used.len() ==> !used[i],
            decreases PLANE - used.len(),
        {
            used.push(false);
        }
        let r = CharUsage { used };
        proof {
            assert(r@ =~= Set::<u32>::empty());
        }
        r
    }

    /// Marks one character, if it belongs into a subset.
    pub fn mark(&mut self, c: char)
        requires
            old(self).wf(),
        ensures
            final(self).wf(),
            final(self)@ == if in_subset_range(c) {
                old(self)@.insert(c as u32)
            } else {
                old(self)@
            },
    {
        let code = c as u32;
        if 0xFF < code && code < 0x10000 {
            self.used.set(code as usize, true);
            proof {
                assert(self@ =~= old(self)@.insert(code));
            }
        }
    }

    /// Marks the characters of `text` that belong into a subset.
    pub fn mark_text(&mut self, text: &str)
        requires
            old(self).wf(),
        ensures
            final(self).wf(),
            final(self)@ == old(self)@.union(subset_code_points(text@)),
    {
        let ghost before = self@;
        let mut chars = text.chars();
        let ghost mut done: int = 0;
        proof {
            assert(self@ =~= before.union(subset_code_points(text@.subrange(0, 0))));
        }
        loop
            invariant
                self.wf(),
                0 <= done <= text@.len(),
                chars.remaining() == text@.subrange(done, text@.len() as int),
                chars.obeys_prophetic_iter_laws(),
                chars.decrease() is Some,
                self@ == before.union(subset_code_points(text@.subrange(0, done))),
            ensures
                self.wf(),
                self@ == before.union(subset_code_points(text@)),
            decreases chars.decrease()->0,
        {
            let ghost earlier = self@;
            let ghost seen = text@.subrange(0, done);
            match chars.next() {
                None => {
                    proof {
                        assert(text@.subrange(0, done) =~= text@);
                    }
                    break ;
                },
                Some(c) => {
                    self.mark(c);
                    proof {
                        assert(c == text@[done]);
                        let longer = text@.subrange(0, done + 1);
                        assert(longer[done] == c);
                        assert forall|code: u32|
                            subset_code_points(longer).contains(code) <==> subset_code_points(
                                seen,
                            ).contains(code) || (in_subset_range(c) && c as u32 == code) by {
                            if subset_code_points(longer).contains(code) {
                                let i = choose|i: int|
                                    0 <= i < longer.len() && in_subset_range(#[trigger] longer[i])
                                        && longer[i] as u32 == code;
                                if i < done {
                                    assert(seen[i] == longer[i]);
                                }
                            }
                            if subset_code_points(seen).contains(code) {
                                let i = choose|i: int|
                                    0 <= i < seen.len() && in_subset_range(#[trigger] seen[i])
                                        && seen[i] as u32 == code;
                                assert(longer[i] == seen[i]);
                            }
                        }
                        assert(self@ =~= before.union(subset_code_points(longer)));
                        assert(chars.remaining() =~= text@.subrange(done + 1, text@.len() as int));
                        done = done + 1;
                    }
                },
            }
        }
    }

    /// The code points in use, in rising order.
    pub fn code_points(&self) -> (r: Vec<u32>)
        requires
            self.wf(),
        ensures
            forall|i: int, j: int| 0 <= i < j < r.len() ==> r[i] < r[j],
            forall|code: u32| r@.contains(code) <==> self@.contains(code),
    {
        let mut r: Vec<u32> = Vec::new();
        let mut code: usize = 0;
        while code < PLANE
            invariant
                self.wf(),
                code <= PLANE,
                forall|i: int| 0 <= i < r.len() ==> r[i] < code,
                forall|i: int, j: int| 0 <= i < j < r.len() ==> r[i] < r[j],
                forall|c: u32| r@.contains(c) <==> c < code && self@.contains(c),
            decreases PLANE - code,
        {
            let ghost before = r@;
            if self.used[code] {
                r.push(code as u32);
                proof {
                    assert forall|c: u32| r@.contains(c) <==> c < code + 1 && self@.contains(c) by {
                        if r@.contains(c) {
                            let i = choose|i: int| 0 <= i < r.len() && r[i] == c;
                            if i < before.len() {
                                assert(before.contains(c));
                            }
                        }
                        if c < code + 1 && self@.contains(c) {
                            if c < code {
                                assert(before.contains(c));
                                let i = choose|i: int| 0 <= i < before.len() && before[i] == c;
                                assert(r[i] == c);
                            } else {
                                assert(r[before.len() as int] == c);
                            }
                        }
                    }
                }
            }
            code = code + 1;
        }
        r
    }
}

/// The glyphs of a subset: the glyph 0 and the glyphs of `ids`, each once, in
/// rising order.
pub fn glyph_list(ids: &Vec<u16>) -> (r: Vec<u16>)
    ensures
        forall|i: int, j: int| 0 <= i < j < r.len() ==> r[i] < r[j],
        forall|glyph: u16| r@.contains(glyph) <==> glyph == 0 || ids@.contains(glyph),
{
    let mut present: Vec<bool> = Vec::new();
    while present.len() < PLANE
        invariant
            present.len() <= PLANE,
            forall|i: int| 0 <= i < present.len() ==> !present[i],
        decreases PLANE - present.len(),
    {
        present.push(false);
    }
    present.set(0, true);
    let mut k: usize = 0;
    while k < ids.len()
        invariant
            k <= ids.len(),
            present.len() == PLANE,
            forall|glyph: int|
                0 <= glyph < PLANE ==> (#[trigger] present[glyph] <==> glyph == 0 || exists|i: int|
                    0 <= i < k && ids[i] == glyph),
        decreases ids.len() - k,
    {
        let ghost before = present@;
        present.set(ids[k] as usize, true);
        proof {
            assert forall|glyph: int| 0 <= glyph < PLANE implies (#[trigger] present[glyph] <==> glyph
                == 0 || exists|i: int| 0 <= i < k + 1 && ids[i] == glyph) by {
                if glyph == ids[k as int] {
                    assert(ids[k as int] == glyph);
                } else if before[glyph] && glyph != 0 {
                    let i = choose|i: int| 0 <= i < k && ids[i] == glyph;
                    assert(0 <= i < k + 1 && ids[i] == glyph);
                } else if exists|i: int| 0 <= i < k + 1 && ids[i] == glyph {
                    let i = choose|i: int| 0 <= i < k + 1 && ids[i] == glyph;
                    assert(i < k);
                }
            }
        }
        k = k + 1;
    }
    let mut r: Vec<u16> = Vec::new();
    let mut glyph: usize = 0;
    while glyph < PLANE
        invariant
            glyph <= PLANE,
            present.len() == PLANE,
            forall|i: int| 0 <= i < r.len() ==> r[i] < glyph,
            forall|i: int, j: int| 0 <= i < j < r.len() ==> r[i] < r[j],
            forall|g: u16| r@.contains(g) <==> g < glyph && present[g as int],
        decreases PLANE - glyph,
    {
        let ghost before = r@;
        if present[glyph] {
            r.push(glyph as u16);
            proof {
                assert forall|g: u16| r@.contains(g) <==> g < glyph + 1 && present[g as int] by {
                    if r@.contains(g) {
                        let i = choose|i: int| 0 <= i < r.len() && r[i] == g;
                        if i < before.len() {
                            assert(before.contains(g));
                        }
                    }
                    if g < glyph + 1 && present[g as int] {
                        if g < glyph {
                            assert(before.contains(g));
                            let i = choose|i: int| 0 <= i < before.len() && before[i] == g;
                            assert(r[i] == g);
                        } else {
                            assert(r[before.len() as int] == g);
                        }
                    }
                }
            }
        }
        glyph = glyph + 1;
    }
    proof {
        assert forall|g: u16| r@.contains(g) <==> g == 0 || ids@.contains(g) by {
            if ids@.contains(g) {
                let i = choose|i: int| 0 <= i < ids.len() && ids[i] == g;
                assert(present[g as int]);
            }
            if present[g as int] && g != 0 {
                let i = choose|i: int| 0 <= i < ids.len() && ids[i] == g as int;
                assert(ids@[i] == g);
            }
        }
    }
    r
}

} // verus!
