//! Selection state for a dynamic list of items.
//!
//! The selection index lives in a pluggable backend implementing
//! [`SelectStateData`], so the same logic drives different list
//! widgets; a plain `usize` backend is provided here. Callbacks fire
//! when an item is highlighted or submitted.

use vstd::prelude::*;
use vstd::std_specs::cmp::PartialEqSpec;

verus! {

/// The storage backend of a selection: where the selected index and
/// the scroll offset live.
pub trait SelectStateData: Sized {
    /// The selected index, as the backend's model sees it.
    spec fn sel_spec(&self) -> Option<usize>;

    /// Index of the selected element.
    fn selected(&self) -> (r: Option<usize>)
        ensures
            r == self.sel_spec(),
    ;

    /// Select an element by index.
    fn select(&mut self, index: usize)
        ensures
            final(self).sel_spec() == Option::Some(index),
    ;

    /// Visual offset into the list, for scrolling.
    fn offset(&self) -> usize;
}

impl SelectStateData for usize {
    open spec fn sel_spec(&self) -> Option<usize> {
        Option::Some(*self)
    }

    fn selected(&self) -> (r: Option<usize>)
        ensures
            r == self.sel_spec(),
    {
        Option::Some(*self)
    }

    fn select(&mut self, index: usize)
        ensures
            final(self).sel_spec() == Option::Some(index),
    {
        *self = index;
    }

    fn offset(&self) -> usize {
        0
    }
}

/// A callback fired on an item of the list.
pub trait Callback<Item> {
    /// React to the item.
    fn on_item(&mut self, item: &mut Item);
}

/// The callback that does nothing.
pub struct NoCallback;

impl<Item> Callback<Item> for NoCallback {
    fn on_item(&mut self, item: &mut Item) {
    }
}

/// State manager for a dynamic list of items with one selected
/// element.
pub struct SelectState<Item, State, CSel, CSub> {
    state: State,
    items: Vec<Item>,
    on_select: CSel,
    on_submit: CSub,
}

/// Builder for [`SelectState`], so callbacks are in place before the
/// initial selection fires them.
pub struct SelectStateBuilder<Item, State, CSel, CSub> {
    items: Vec<Item>,
    preselect_index: usize,
    on_select: CSel,
    on_submit: CSub,
    state_seed: State,
}

impl<Item, State, CSel, CSub> SelectState<Item, State, CSel, CSub> {
    /// The items, as a sequence.
    pub closed spec fn items_spec(&self) -> Seq<Item> {
        self.items@
    }
}

impl<Item, State: SelectStateData, CSel, CSub> SelectState<Item, State, CSel, CSub> {
    /// The backend's selection model.
    pub closed spec fn sel_model(&self) -> Option<usize> {
        self.state.sel_spec()
    }
}

impl<Item, State, CSel, CSub> SelectStateBuilder<Item, State, CSel, CSub> {
    /// The items, as a sequence.
    pub closed spec fn items_spec(&self) -> Seq<Item> {
        self.items@
    }

    /// The index that will be preselected.
    pub closed spec fn preselect_spec(&self) -> usize {
        self.preselect_index
    }
}

/// The first index at or after `from` whose item equals `value`,
/// under the comparison's own model.
pub open spec fn eq_index<Item, T: PartialEq<Item>>(
    items: Seq<Item>,
    value: T,
    from: int,
) -> Option<int>
    decreases items.len() - from,
{
    if from < 0 || from >= items.len() {
        Option::None
    } else if value.eq_spec(&items[from]) {
        Option::Some(from)
    } else {
        eq_index(items, value, from + 1)
    }
}

/// The first index whose item equals `value`, under the comparison's
/// own model.
pub fn find_index<Item, T: PartialEq<Item>>(items: &Vec<Item>, value: &T) -> (r: Option<usize>)
    ensures
        r matches Option::Some(i) ==> i < items@.len(),
        T::obeys_eq_spec() ==> match r {
            Option::Some(i) => eq_index(items@, *value, 0) == Option::Some(i as int),
            Option::None => eq_index(items@, *value, 0) is None,
        },
{
    let mut i: usize = 0;
    while i < items.len()
        invariant
            0 <= i <= items@.len(),
            T::obeys_eq_spec() ==> eq_index(items@, *value, 0) == eq_index(
                items@,
                *value,
                i as int,
            ),
        decreases items@.len() - i,
    {
        if *value == items[i] {
            return Option::Some(i);
        }
        i += 1;
    }
    Option::None
}

impl<Item, State: SelectStateData + Default, CSel: Callback<Item>, CSub: Callback<Item>> SelectStateBuilder<
    Item,
    State,
    CSel,
    CSub,
> {
    /// Set the value that should be initially selected.
    pub fn preselect<T: PartialEq<Item>>(self, value: &T) -> (r: Self)
        ensures
            r.items_spec() == self.items_spec(),
            T::obeys_eq_spec() ==> r.preselect_spec() as int == (match eq_index(
                self.items_spec(),
                *value,
                0,
            ) {
                Option::Some(i) => i,
                Option::None => self.preselect_spec() as int,
            }),
    {
        let mut this = self;
        match find_index(&this.items, value) {
            Option::Some(index) => {
                this.preselect_index = index;
            },
            Option::None => {},
        }
        this
    }

    /// Set the value that should be initially selected, if any.
    pub fn preselect_opt<T: PartialEq<Item>>(self, value: Option<&T>) -> (r: Self)
        ensures
            r.items_spec() == self.items_spec(),
            value is None ==> r.preselect_spec() == self.preselect_spec(),
            T::obeys_eq_spec() ==> (value matches Option::Some(v) ==> r.preselect_spec() as int
                == (match eq_index(self.items_spec(), *v, 0) {
                Option::Some(i) => i,
                Option::None => self.preselect_spec() as int,
            })),
    {
        match value {
            Option::Some(value) => self.preselect(value),
            Option::None => self,
        }
    }

    /// Set the callback fired when the user highlights a new item.
    pub fn on_select<C2: Callback<Item>>(self, on_select: C2) -> (r: SelectStateBuilder<
        Item,
        State,
        C2,
        CSub,
    >)
        ensures
            r.items_spec() == self.items_spec(),
            r.preselect_spec() == self.preselect_spec(),
    {
        SelectStateBuilder {
            items: self.items,
            preselect_index: self.preselect_index,
            on_select,
            on_submit: self.on_submit,
            state_seed: self.state_seed,
        }
    }

    /// Set the callback fired when the user submits an item.
    pub fn on_submit<C2: Callback<Item>>(self, on_submit: C2) -> (r: SelectStateBuilder<
        Item,
        State,
        CSel,
        C2,
    >)
        ensures
            r.items_spec() == self.items_spec(),
            r.preselect_spec() == self.preselect_spec(),
    {
        SelectStateBuilder {
            items: self.items,
            preselect_index: self.preselect_index,
            on_select: self.on_select,
            on_submit,
            state_seed: self.state_seed,
        }
    }

    /// Build the state. The preselected index is applied if it is in
    /// bounds, firing the select callback.
    pub fn build(self) -> (r: SelectState<Item, State, CSel, CSub>)
        ensures
            r.items_spec().len() == self.items_spec().len(),
            self.preselect_spec() < self.items_spec().len() ==> r.sel_model() == Option::Some(
                self.preselect_spec(),
            ),
    {
        let mut select = SelectState {
            state: self.state_seed,
            items: self.items,
            on_select: self.on_select,
            on_submit: self.on_submit,
        };
        if self.preselect_index < select.items.len() {
            select.select_index(self.preselect_index);
        }
        select
    }
}

impl<Item, State: SelectStateData + Default, CSel: Callback<Item>, CSub: Callback<Item>> SelectState<
    Item,
    State,
    CSel,
    CSub,
> {
    /// Start a new builder with the default backend state.
    pub fn builder(items: Vec<Item>) -> (r: SelectStateBuilder<Item, State, NoCallback, NoCallback>)
        ensures
            r.items_spec() == items@,
            r.preselect_spec() == 0,
    {
        SelectStateBuilder {
            items,
            preselect_index: 0,
            on_select: NoCallback,
            on_submit: NoCallback,
            state_seed: State::default(),
        }
    }

    /// All items in the list.
    pub fn items(&self) -> (r: &Vec<Item>)
        ensures
            r@ == self.items_spec(),
    {
        &self.items
    }

    /// The index of the currently selected item, if any.
    pub fn selected_index(&self) -> (r: Option<usize>)
        ensures
            r == self.sel_model(),
    {
        self.state.selected()
    }

    /// The currently selected item, if the index is in bounds.
    pub fn selected(&self) -> (r: Option<&Item>)
        ensures
            match self.sel_model() {
                Option::Some(i) => if i < self.items_spec().len() {
                    r matches Option::Some(item) && *item == self.items_spec()[i as int]
                } else {
                    r is None
                },
                Option::None => r is None,
            },
    {
        match self.state.selected() {
            Option::Some(i) => {
                if i < self.items.len() {
                    Option::Some(&self.items[i])
                } else {
                    Option::None
                }
            },
            Option::None => Option::None,
        }
    }

    /// Select an item by value; anything that compares to an item,
    /// such as an ID, will do.
    pub fn select<T: PartialEq<Item>>(&mut self, value: &T)
        ensures
            final(self).items_spec().len() == old(self).items_spec().len(),
            T::obeys_eq_spec() ==> match eq_index(old(self).items_spec(), *value, 0) {
                Option::Some(i) => final(self).sel_model() matches Option::Some(s) && s as int
                    == i,
                Option::None => final(self).sel_model() == old(self).sel_model(),
            },
    {
        match find_index(&self.items, value) {
            Option::Some(index) => {
                self.select_index(index);
            },
            Option::None => {},
        }
    }

    /// Select the previous item, wrapping at the top.
    pub fn previous(&mut self)
        ensures
            final(self).items_spec().len() == old(self).items_spec().len(),
            old(self).items_spec().len() > 0 ==> final(self).sel_model() is Some,
            selection_moved(*old(self), *final(self), -1),
    {
        self.select_delta(-1);
    }

    /// Select the next item, wrapping at the bottom.
    pub fn next(&mut self)
        ensures
            final(self).items_spec().len() == old(self).items_spec().len(),
            old(self).items_spec().len() > 0 ==> final(self).sel_model() is Some,
            selection_moved(*old(self), *final(self), 1),
    {
        self.select_delta(1);
    }

    /// Submit the selected item: fire the submit callback on it.
    pub fn submit(&mut self)
        ensures
            final(self).items_spec().len() == old(self).items_spec().len(),
    {
        let sel = self.state.selected();
        match sel {
            Option::Some(index) => {
                if index < self.items.len() {
                    let item = &mut self.items[index];
                    self.on_submit.on_item(item);
                }
            },
            Option::None => {},
        }
    }

    /// Select an item by index; fires the select callback when the
    /// selection changed.
    fn select_index(&mut self, index: usize)
        requires
            index < old(self).items@.len(),
        ensures
            final(self).items@.len() == old(self).items@.len(),
            final(self).state.sel_spec() == Option::Some(index),
            final(self).items_spec().len() == old(self).items_spec().len(),
            final(self).sel_model() == Option::Some(index),
    {
        let current = self.state.selected();
        self.state.select(index);
        let changed = match current {
            Option::Some(c) => c != index,
            Option::None => true,
        };
        if changed {
            let item = &mut self.items[index];
            self.on_select.on_item(item);
        }
    }

    /// Move some number of items up or down, wrapping at both ends.
    fn select_delta(&mut self, delta: i64)
        ensures
            final(self).items@.len() == old(self).items@.len(),
            old(self).items@.len() > 0 ==> final(self).state.sel_spec() is Some,
            final(self).items_spec().len() == old(self).items_spec().len(),
            old(self).items_spec().len() > 0 ==> final(self).sel_model() is Some,
            selection_moved(*old(self), *final(self), delta as int),
    {
        let len = self.items.len();
        if len > 0 {
            let index: usize = match self.state.selected() {
                Option::Some(i) => {
                    if i < len {
                        wrap_index(i, delta, len)
                    } else {
                        0
                    }
                },
                Option::None => 0,
            };
            self.select_index(index);
        }
    }
}

/// Where a wrapping move by `delta` lands: from a selected in-range
/// index it wraps modularly; from no selection or an out-of-range
/// index it lands on the first item; an empty list never selects.
pub open spec fn selection_moved<Item, State: SelectStateData, CSel, CSub>(
    a: SelectState<Item, State, CSel, CSub>,
    b: SelectState<Item, State, CSel, CSub>,
    delta: int,
) -> bool {
    if a.items_spec().len() == 0 {
        b.sel_model() == a.sel_model()
    } else {
        match a.sel_model() {
            Option::Some(i) => if i < a.items_spec().len() {
                b.sel_model() matches Option::Some(s) && s as int == (i + delta) % (
                a.items_spec().len() as int)
            } else {
                b.sel_model() == Option::<usize>::Some(0usize)
            },
            Option::None => b.sel_model() == Option::<usize>::Some(0usize),
        }
    }
}

/// `(i + delta)` wrapped into `[0, len)`.
pub fn wrap_index(i: usize, delta: i64, len: usize) -> (r: usize)
    requires
        len > 0,
        i < len,
    ensures
        r < len,
        r == (i + delta) % (len as int),
{
    let lm: u128 = len as u128;
    if delta >= 0 {
        let step: u128 = (delta as u128) % lm;
        let idx: u128 = ((i as u128) + step) % lm;
        proof {
            let d = delta as int;
            let l = len as int;
            vstd::arithmetic::div_mod::lemma_fundamental_div_mod(d, l);
            vstd::arithmetic::div_mod::lemma_mod_multiples_vanish(d / l, i + (d % l), l);
            assert(l * (d / l) + (i + d % l) == i + d);
        }
        idx as usize
    } else {
        let nd: i128 = -(delta as i128);
        let mag: u128 = (nd as u128) % lm;
        let idx: u128 = ((i as u128) + lm - mag) % lm;
        proof {
            let d = delta as int;
            let l = len as int;
            let n = nd as int;
            vstd::arithmetic::div_mod::lemma_fundamental_div_mod(n, l);
            assert(n == l * (n / l) + (n % l));
            vstd::arithmetic::div_mod::lemma_mod_multiples_vanish(
                -(n / l) - 1,
                i + l - (n % l),
                l,
            );
            assert(l * (-(n / l) - 1) == -(l * (n / l)) - l) by (nonlinear_arith);
            assert(l * (-(n / l) - 1) + (i + l - (n % l)) == i + d);
        }
        idx as usize
    }
}

} // verus!
