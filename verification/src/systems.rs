//! A list of named systems that are run and cleaned up together.

use vstd::prelude::*;

verus! {

/// A unit of work with a name, for users of the library to implement.
pub trait System {
    fn name(&self) -> String;

    fn run(&mut self);

    fn init(&mut self);

    fn clean(&mut self);
}

/// Systems in the order in which they were added.
pub struct Systems<T: System> {
    pub systems: Vec<T>,
}

/// `system`, asked for its name, may say `name`.
pub open spec fn answers_to<T: System>(system: &T, name: Seq<char>) -> bool {
    exists|said: String| #[trigger] call_ensures(T::name, (system,), said) && said@ == name
}

/// `system`, asked for its name, may say something other than `name`.
pub open spec fn answers_otherwise<T: System>(system: &T, name: Seq<char>) -> bool {
    exists|said: String| #[trigger] call_ensures(T::name, (system,), said) && said@ != name
}

impl<T: System> Systems<T> {
    /// An empty list.
    pub fn new() -> (s: Self)
        ensures
            s.systems@ == Seq::<T>::empty(),
    {
        Self { systems: Vec::new() }
    }

    /// Puts `system` at the end of the list.
    pub fn add(&mut self, system: T)
        ensures
            final(self).systems@ == old(self).systems@.push(system),
    {
        self.systems.push(system);
    }

    /// Runs every system once, in order. Each system of the list is left as a
    /// run of its own, started from the system as it was, leaves it.
    pub fn run(&mut self)
        ensures
            final(self).systems@.len() == old(self).systems@.len(),
            exists|calls: Seq<&mut T>|
                {
                    &&& #[trigger] calls.len() == old(self).systems@.len()
                    &&& forall|i: int|
                        #![trigger calls[i]]
                        #![trigger final(self).systems@[i]]
                        0 <= i < calls.len() ==> *calls[i] == old(self).systems@[i]
                            && *final(calls[i]) == final(self).systems@[i]
                            && call_ensures(T::run, (calls[i],), ())
                },
    {
        let mut i: usize = 0;
        proof {
            let none = Seq::<&mut T>::empty();
            assert(none.len() == 0);
        }
        while i < self.systems.len()
            invariant
                i <= self.systems@.len(),
                self.systems@.len() == old(self).systems@.len(),
                forall|j: int|
                    i <= j < self.systems@.len() ==> self.systems@[j] == old(self).systems@[j],
                exists|calls: Seq<&mut T>|
                    {
                        &&& #[trigger] calls.len() == i
                        &&& forall|j: int|
                            0 <= j < calls.len() ==> *(#[trigger] calls[j]) == old(self).systems@[j]
                                && *final(calls[j]) == self.systems@[j] && call_ensures(
                                T::run,
                                (calls[j],),
                                (),
                            )
                    },
            decreases self.systems@.len() - i,
        {
            let ghost before = self.systems@;
            self.systems[i].run();
            proof {
                assert(forall|j: int|
                    0 <= j < before.len() && j != i ==> self.systems@[j] == before[j]);
                let earlier = choose|calls: Seq<&mut T>|
                    {
                        &&& #[trigger] calls.len() == i
                        &&& forall|j: int|
                            0 <= j < calls.len() ==> *(#[trigger] calls[j]) == old(self).systems@[j]
                                && *final(calls[j]) == before[j] && call_ensures(
                                T::run,
                                (calls[j],),
                                (),
                            )
                    };
                let call = choose|r: &mut T|
                    #![trigger call_ensures(T::run, (r,), ())]
                    *r == before[i as int] && *final(r) == self.systems@[i as int] && call_ensures(
                        T::run,
                        (r,),
                        (),
                    );
                let calls = earlier.push(call);
                assert(calls.len() == i + 1);
                assert forall|j: int| 0 <= j < calls.len() implies *(#[trigger] calls[j]) == old(
                    self,
                ).systems@[j] && *final(calls[j]) == self.systems@[j] && call_ensures(
                    T::run,
                    (calls[j],),
                    (),
                ) by {
                    if j < i {
                        assert(calls[j] == earlier[j]);
                        assert(self.systems@[j] == before[j]);
                    } else {
                        assert(calls[j] == call);
                    }
                }
            }
            i = i + 1;
        }
    }

    /// Cleans every system up once, in order. Each system of the list is left
    /// as a clean-up of its own, started from the system as it was, leaves it.
    pub fn clean(&mut self)
        ensures
            final(self).systems@.len() == old(self).systems@.len(),
            exists|calls: Seq<&mut T>|
                {
                    &&& #[trigger] calls.len() == old(self).systems@.len()
                    &&& forall|i: int|
                        #![trigger calls[i]]
                        #![trigger final(self).systems@[i]]
                        0 <= i < calls.len() ==> *calls[i] == old(self).systems@[i]
                            && *final(calls[i]) == final(self).systems@[i]
                            && call_ensures(T::clean, (calls[i],), ())
                },
    {
        let mut i: usize = 0;
        proof {
            let none = Seq::<&mut T>::empty();
            assert(none.len() == 0);
        }
        while i < self.systems.len()
            invariant
                i <= self.systems@.len(),
                self.systems@.len() == old(self).systems@.len(),
                forall|j: int|
                    i <= j < self.systems@.len() ==> self.systems@[j] == old(self).systems@[j],
                exists|calls: Seq<&mut T>|
                    {
                        &&& #[trigger] calls.len() == i
                        &&& forall|j: int|
                            0 <= j < calls.len() ==> *(#[trigger] calls[j]) == old(self).systems@[j]
                                && *final(calls[j]) == self.systems@[j] && call_ensures(
                                T::clean,
                                (calls[j],),
                                (),
                            )
                    },
            decreases self.systems@.len() - i,
        {
            let ghost before = self.systems@;
            self.systems[i].clean();
            proof {
                assert(forall|j: int|
                    0 <= j < before.len() && j != i ==> self.systems@[j] == before[j]);
                let earlier = choose|calls: Seq<&mut T>|
                    {
                        &&& #[trigger] calls.len() == i
                        &&& forall|j: int|
                            0 <= j < calls.len() ==> *(#[trigger] calls[j]) == old(self).systems@[j]
                                && *final(calls[j]) == before[j] && call_ensures(
                                T::clean,
                                (calls[j],),
                                (),
                            )
                    };
                let call = choose|r: &mut T|
                    #![trigger call_ensures(T::clean, (r,), ())]
                    *r == before[i as int] && *final(r) == self.systems@[i as int] && call_ensures(
                        T::clean,
                        (r,),
                        (),
                    );
                let calls = earlier.push(call);
                assert(calls.len() == i + 1);
                assert forall|j: int| 0 <= j < calls.len() implies *(#[trigger] calls[j]) == old(
                    self,
                ).systems@[j] && *final(calls[j]) == self.systems@[j] && call_ensures(
                    T::clean,
                    (calls[j],),
                    (),
                ) by {
                    if j < i {
                        assert(calls[j] == earlier[j]);
                        assert(self.systems@[j] == before[j]);
                    } else {
                        assert(calls[j] == call);
                    }
                }
            }
            i = i + 1;
        }
    }

    /// The first system that says `name` when asked for its name; when every
    /// system says something else, the whole list as the error. Each system
    /// is asked once, in order, up to the one that is found.
    pub fn get(&mut self, name: String) -> (r: Result<&T, &Vec<T>>)
        ensures
            final(self).systems@ == old(self).systems@,
            r is Ok ==> exists|i: int|
                {
                    &&& 0 <= i < old(self).systems@.len()
                    &&& *r->Ok_0 == #[trigger] old(self).systems@[i]
                    &&& answers_to(&old(self).systems@[i], name@)
                    &&& forall|j: int|
                        0 <= j < i ==> answers_otherwise(&#[trigger] old(self).systems@[j], name@)
                },
            r is Err ==> r->Err_0@ == old(self).systems@ && forall|j: int|
                0 <= j < old(self).systems@.len() ==> answers_otherwise(
                    &#[trigger] old(self).systems@[j],
                    name@,
                ),
    {
        let mut i: usize = 0;
        while i < self.systems.len()
            invariant
                i <= self.systems@.len(),
                self.systems@ == old(self).systems@,
                forall|j: int|
                    0 <= j < i ==> answers_otherwise(&#[trigger] self.systems@[j], name@),
            decreases self.systems@.len() - i,
        {
            let said = self.systems[i].name();
            if said == name {
                assert(answers_to(&self.systems@[i as int], name@));
                return Ok(&self.systems[i]);
            }
            assert(answers_otherwise(&self.systems@[i as int], name@));
            i = i + 1;
        }
        Err(&self.systems)
    }
}

} // verus!
