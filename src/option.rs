//! Helpers for layering optional configuration values.

use vstd::prelude::*;

verus! {

/// If `other_value` has a value, overwrite `self_value` with a clone of it.
pub fn overwrite_from_option<T: Clone>(self_value: &mut T, other_value: &Option<T>)
    ensures
        match other_value {
            Some(v) => cloned(*v, *final(self_value)),
            None => *final(self_value) == *old(self_value),
        },
{
    if let Some(value) = other_value.as_ref() {
        *self_value = value.clone();
    }
}

/// If `other_value` has a value, overwrite `self_value` with a clone of it.
pub fn overwrite_option_from_option<T: Clone>(self_value: &mut Option<T>, other_value: &Option<T>)
    ensures
        match other_value {
            Some(v) => final(self_value).is_some() && cloned(*v, final(self_value).unwrap()),
            None => *final(self_value) == *old(self_value),
        },
{
    if let Some(value) = other_value.as_ref() {
        *self_value = Some(value.clone());
    }
}

/// If `a` is `None`, set it to a clone of `b`.
pub fn update_if_none<T: Clone>(a: &mut Option<T>, b: &Option<T>)
    ensures
        match (*old(a), b) {
            (None, Some(v)) => final(a).is_some() && cloned(*v, final(a).unwrap()),
            _ => *final(a) == *old(a),
        },
{
    if a.is_none() {
        if let Some(value) = b.as_ref() {
            *a = Some(value.clone());
        }
    }
}

} // verus!
