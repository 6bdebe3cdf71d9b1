//! Bookkeeping of the loaded layers.
//!
//! A layer is one loaded trajectory: its samples, its display name, and a
//! visibility flag, held in three parallel lists that always have equal
//! length and move in lock-step on insert and remove. A layer's colour is
//! not stored: it is its current position in the store modulo the palette
//! size, so removing a layer shifts the colours of every later layer.

use vstd::prelude::*;

use crate::parser::{Sample, SampleView};

verus! {

/// Why an indexed operation was refused.
#[derive(Clone, Copy, PartialEq, Eq, Structural, Debug)]
pub enum StoreError {
    IndexOutOfRange,
}

/// A display colour, as its red, green and blue parts.
#[derive(Clone, Copy, PartialEq, Eq, Structural, Debug)]
pub struct Color {
    pub r: u8,
    pub g: u8,
    pub b: u8,
}

/// The fixed palette, in order. A layer at position `i` is drawn with
/// `palette()[i % palette().len()]`.
pub open spec fn palette() -> Seq<Color> {
    seq![
        Color { r: 255, g: 0, b: 0 },
        Color { r: 0, g: 0, b: 255 },
        Color { r: 144, g: 238, b: 144 },
        Color { r: 172, g: 77, b: 188 },
        Color { r: 173, g: 216, b: 230 },
        Color { r: 240, g: 230, b: 140 },
        Color { r: 118, g: 77, b: 188 },
        Color { r: 0, g: 255, b: 0 },
        Color { r: 255, g: 128, b: 128 },
        Color { r: 0, g: 0, b: 139 },
        Color { r: 255, g: 255, b: 0 },
    ]
}

/// The colour of the layer at position `i`: the palette entry at `i`
/// modulo the palette size. Total in the position, with no error case.
pub fn color_for(i: usize) -> (c: Color)
    ensures
        c == palette()[i as int % palette().len() as int],
{
    let k = i % 11;
    proof {
        assert(palette().len() == 11);
    }
    if k == 0 {
        Color { r: 255, g: 0, b: 0 }
    } else if k == 1 {
        Color { r: 0, g: 0, b: 255 }
    } else if k == 2 {
        Color { r: 144, g: 238, b: 144 }
    } else if k == 3 {
        Color { r: 172, g: 77, b: 188 }
    } else if k == 4 {
        Color { r: 173, g: 216, b: 230 }
    } else if k == 5 {
        Color { r: 240, g: 230, b: 140 }
    } else if k == 6 {
        Color { r: 118, g: 77, b: 188 }
    } else if k == 7 {
        Color { r: 0, g: 255, b: 0 }
    } else if k == 8 {
        Color { r: 255, g: 128, b: 128 }
    } else if k == 9 {
        Color { r: 0, g: 0, b: 139 }
    } else {
        Color { r: 255, g: 255, b: 0 }
    }
}

/// The palette holds at least eight colours and no two of its entries are
/// alike.
pub proof fn lemma_palette_distinct()
    ensures
        palette().len() >= 8,
        forall|i: int, j: int|
            0 <= i < palette().len() && 0 <= j < palette().len() && i != j ==> palette()[i]
                != palette()[j],
{
}

/// The loaded layers.
pub struct LayerStore {
    samples: Vec<Vec<Sample>>,
    visible: Vec<bool>,
    names: Vec<Vec<u8>>,
}

/// The store's three parallel lists: each layer's samples, its visibility
/// flag, and its display name, all indexed alike.
pub struct StoreView {
    pub samples: Seq<Seq<SampleView>>,
    pub visible: Seq<bool>,
    pub names: Seq<Seq<u8>>,
}

impl View for LayerStore {
    type V = StoreView;

    closed spec fn view(&self) -> StoreView {
        StoreView {
            samples: self.samples.deep_view(),
            visible: self.visible@,
            names: self.names.deep_view(),
        }
    }
}

impl LayerStore {
    /// The parallel lists have equal length: every layer has its samples,
    /// its flag and its name at one shared index. Every operation of the
    /// store keeps this.
    pub open spec fn wf(self) -> bool {
        self@.samples.len() == self@.visible.len() && self@.visible.len() == self@.names.len()
    }

    /// An empty store.
    pub fn new() -> (s: LayerStore)
        ensures
            s.wf(),
            s@.samples == Seq::<Seq<SampleView>>::empty(),
            s@.visible == Seq::<bool>::empty(),
            s@.names == Seq::<Seq<u8>>::empty(),
    {
        let s = LayerStore { samples: Vec::new(), visible: Vec::new(), names: Vec::new() };
        proof {
            assert(s@.samples =~= Seq::<Seq<SampleView>>::empty());
            assert(s@.names =~= Seq::<Seq<u8>>::empty());
        }
        s
    }

    /// How many layers are loaded.
    pub fn layer_count(&self) -> (n: usize)
        ensures
            n == self@.samples.len(),
    {
        self.samples.len()
    }

    /// Appends a layer, visible from the start, and returns its position.
    pub fn add_layer(&mut self, samples: Vec<Sample>, name: Vec<u8>) -> (idx: usize)
        requires
            old(self).wf(),
        ensures
            final(self).wf(),
            idx == old(self)@.samples.len(),
            final(self)@.samples == old(self)@.samples.push(samples.deep_view()),
            final(self)@.visible == old(self)@.visible.push(true),
            final(self)@.names == old(self)@.names.push(name@),
    {
        let idx = self.samples.len();
        let ghost old_samples = self.samples.deep_view();
        let ghost old_names = self.names.deep_view();
        let ghost pushed = samples.deep_view();
        let ghost pushed_name = name@;
        self.samples.push(samples);
        self.visible.push(true);
        self.names.push(name);
        proof {
            assert(self.samples.deep_view() =~~= old_samples.push(pushed));
            assert(self.names.deep_view() =~~= old_names.push(pushed_name));
        }
        idx
    }

    /// Removes the layer at `i`, shifting every later layer down by one
    /// position in all three lists, or refuses an out-of-range index and
    /// changes nothing.
    pub fn remove_layer(&mut self, i: usize) -> (r: Result<(), StoreError>)
        requires
            old(self).wf(),
        ensures
            final(self).wf(),
            i < old(self)@.samples.len() ==> r == Ok::<(), StoreError>(())
                && final(self)@.samples == old(self)@.samples.remove(i as int)
                && final(self)@.visible == old(self)@.visible.remove(i as int)
                && final(self)@.names == old(self)@.names.remove(i as int),
            i >= old(self)@.samples.len() ==> r == Err::<(), StoreError>(StoreError::IndexOutOfRange)
                && final(self)@ == old(self)@,
    {
        if i >= self.samples.len() {
            return Err(StoreError::IndexOutOfRange);
        }
        let ghost old_samples = self.samples.deep_view();
        let ghost old_names = self.names.deep_view();
        let _ = self.samples.remove(i);
        let _ = self.visible.remove(i);
        let _ = self.names.remove(i);
        proof {
            assert(self.samples.deep_view() =~~= old_samples.remove(i as int));
            assert(self.names.deep_view() =~~= old_names.remove(i as int));
        }
        Ok(())
    }

    /// Flips the visibility flag of the layer at `i` and changes nothing
    /// else, or refuses an out-of-range index.
    pub fn toggle_visibility(&mut self, i: usize) -> (r: Result<(), StoreError>)
        requires
            old(self).wf(),
        ensures
            final(self).wf(),
            i < old(self)@.visible.len() ==> r == Ok::<(), StoreError>(())
                && final(self)@.visible == old(self)@.visible.update(
                i as int,
                !old(self)@.visible[i as int],
            ) && final(self)@.samples == old(self)@.samples && final(self)@.names == old(
                self,
            )@.names,
            i >= old(self)@.visible.len() ==> r == Err::<(), StoreError>(
                StoreError::IndexOutOfRange,
            ) && final(self)@ == old(self)@,
    {
        if i >= self.visible.len() {
            return Err(StoreError::IndexOutOfRange);
        }
        let flipped = !self.visible[i];
        self.visible.set(i, flipped);
        Ok(())
    }

    /// Empties the store: afterwards all three lists are empty.
    pub fn clear_all(&mut self)
        ensures
            final(self).wf(),
            final(self)@.samples == Seq::<Seq<SampleView>>::empty(),
            final(self)@.visible == Seq::<bool>::empty(),
            final(self)@.names == Seq::<Seq<u8>>::empty(),
    {
        self.samples.clear();
        self.visible.clear();
        self.names.clear();
        proof {
            assert(self.samples.deep_view() =~~= Seq::<Seq<SampleView>>::empty());
            assert(self.names.deep_view() =~~= Seq::<Seq<u8>>::empty());
        }
    }

    /// Whether the layer at `i` is drawn.
    pub fn is_visible(&self, i: usize) -> (r: Result<bool, StoreError>)
        ensures
            i < self@.visible.len() ==> r == Ok::<bool, StoreError>(self@.visible[i as int]),
            i >= self@.visible.len() ==> r == Err::<bool, StoreError>(StoreError::IndexOutOfRange),
    {
        if i >= self.visible.len() {
            return Err(StoreError::IndexOutOfRange);
        }
        Ok(self.visible[i])
    }

    /// The display name of the layer at `i`.
    pub fn name(&self, i: usize) -> (r: Result<&Vec<u8>, StoreError>)
        ensures
            i < self@.names.len() ==> (r matches Ok(n) && n@ == self@.names[i as int]),
            i >= self@.names.len() ==> (r matches Err(e) && e == StoreError::IndexOutOfRange),
    {
        if i >= self.names.len() {
            return Err(StoreError::IndexOutOfRange);
        }
        let n = &self.names[i];
        proof {
            assert(n@ == self.names.deep_view()[i as int]);
        }
        Ok(n)
    }

    /// The samples of the layer at `i`.
    pub fn layer_samples(&self, i: usize) -> (r: Result<&Vec<Sample>, StoreError>)
        ensures
            i < self@.samples.len() ==> (r matches Ok(l) && l.deep_view()
                == self@.samples[i as int]),
            i >= self@.samples.len() ==> (r matches Err(e) && e == StoreError::IndexOutOfRange),
    {
        if i >= self.samples.len() {
            return Err(StoreError::IndexOutOfRange);
        }
        let l = &self.samples[i];
        proof {
            assert(l.deep_view() == self.samples.deep_view()[i as int]);
        }
        Ok(l)
    }
}

/// Removing the layer at `i` leaves one layer fewer; the layers before `i`
/// keep their positions and the layers after `i` move down by exactly one,
/// in all three lists alike — so a surviving layer's colour follows its
/// new position.
pub proof fn lemma_remove_shifts(v: StoreView, i: int)
    requires
        v.samples.len() == v.visible.len() && v.visible.len() == v.names.len(),
        0 <= i < v.samples.len(),
    ensures
        v.samples.remove(i).len() == v.samples.len() - 1,
        forall|j: int|
            0 <= j < i ==> v.samples.remove(i)[j] == v.samples[j] && v.visible.remove(i)[j]
                == v.visible[j] && v.names.remove(i)[j] == v.names[j],
        forall|j: int|
            i <= j < v.samples.len() - 1 ==> v.samples.remove(i)[j] == v.samples[j + 1]
                && v.visible.remove(i)[j] == v.visible[j + 1] && v.names.remove(i)[j] == v.names[j
                + 1],
{
}

} // verus!
