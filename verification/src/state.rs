//! A state that is replaced, never changed: a store holds the state of the
//! moment, and a reducer puts in its place the state that an event leads to.

use std::marker::PhantomData;
use std::rc::Rc;
use vstd::prelude::*;

verus! {

/// The holder of the state of the moment.
pub struct Store<T> {
    state: Rc<T>,
}

impl<T> Store<T> {
    /// The state that the store holds.
    pub closed spec fn state(&self) -> T {
        *self.state
    }

    /// A store that holds `initial_state`.
    pub fn new(initial_state: T) -> (store: Self)
        ensures
            store.state() == initial_state,
    {
        let state = Rc::new(initial_state);
        Store { state }
    }

    /// Puts `state` in the place of the state that the store holds.
    pub fn update_state(&mut self, state: T)
        ensures
            final(self).state() == state,
    {
        let new_state = Rc::new(state);
        self.state = new_state;
    }

    /// The state that the store holds; it stays as it is when the store
    /// moves on to another.
    pub fn get_state(&self) -> (state: Rc<T>)
        ensures
            *state == self.state(),
    {
        Rc::clone(&self.state)
    }
}

/// The step from a state to the next: it gives the state that an event
/// leads to from the state before.
pub trait Reduce<T, S> {
    /// Gives the state that `event` leads to from `state`.
    fn reduce(&self, state: Rc<T>, event: &S) -> T;
}

/// A store together with the step that moves it on.
pub struct Reducer<T, S, R: Reduce<T, S>> {
    store: Store<T>,
    reduce: Box<R>,
    events: PhantomData<S>,
}

impl<T, S, R: Reduce<T, S>> Reducer<T, S, R> {
    /// The state that the store holds.
    pub closed spec fn state(&self) -> T {
        self.store.state()
    }

    /// The step that moves the store on.
    pub closed spec fn step(&self) -> R {
        *self.reduce
    }

    /// A reducer that moves `store` on by `reduce`.
    pub fn new(store: Store<T>, reduce: Box<R>) -> (reducer: Self)
        ensures
            reducer.state() == store.state(),
            reducer.step() == *reduce,
    {
        Reducer { store, reduce, events: PhantomData }
    }

    /// The state that the store holds.
    pub fn get_state(&self) -> (state: Rc<T>)
        ensures
            *state == self.state(),
    {
        self.store.get_state()
    }

    /// Moves the store on: the state that it holds afterwards is the one
    /// that the step gave for the state before and `event`.
    pub fn reduce(&mut self, event: &S)
        ensures
            call_ensures(
                R::reduce,
                (&old(self).step(), Rc::new(old(self).state()), event),
                final(self).state(),
            ),
            final(self).step() == old(self).step(),
    {
        let state = self.store.get_state();
        let new_state = self.reduce.reduce(state, event);
        self.store.update_state(new_state);
    }
}

} // verus!
