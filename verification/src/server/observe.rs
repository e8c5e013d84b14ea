//! Values that tell their observers when asked to.

use vstd::prelude::*;

verus! {

/// Something that is told of a value.
pub trait Observer<T> {
    fn notify(&self, value: &T);
}

/// A value with observers.
pub trait Observable<'a, T: 'a> {
    fn subscribe_observer(&mut self, observer: &'a impl Observer<T>);

    fn get_value(&'a self) -> &'a T;

    fn get_observers(&self) -> &[&dyn Observer<T>];

    /// Tells every observer of the value, in the order of `get_observers`.
    fn notify_observers(&'a self) {
        let observers = self.get_observers();
        let mut i: usize = 0;
        while i < observers.len()
            invariant
                i <= observers.len(),
            decreases observers.len() - i,
        {
            observers[i].notify(self.get_value());
            i += 1;
        }
    }
}

} // verus!
