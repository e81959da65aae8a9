//! The default value of a type, as contracts speak of it.

use vstd::prelude::*;

verus! {

/// Whether `value` may come out of `T::default()`.
pub open spec fn is_default<T: Default>(value: T) -> bool {
    call_ensures(T::default, (), value)
}

/// There is one default value.
pub open spec fn default_determined<T: Default>() -> bool {
    forall|one: T, other: T| #[trigger] is_default(one) && #[trigger] is_default(other) ==> one == other
}

} // verus!
