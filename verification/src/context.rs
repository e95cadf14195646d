//! Keys of the contexts that modulate a distance (user role, device class,
//! hour of day, or a free-form key).

use vstd::prelude::*;

verus! {

/// A context under which a distance is modulated.
#[derive(Clone, Debug, Hash, PartialEq, Eq)]
pub enum ContextKey {
    /// The user's role.
    UserRole(String),
    /// The device class.
    DeviceClass(String),
    /// The hour of day, 0 to 23.
    HourOfDay(u8),
    /// Any other context.
    Custom(String),
}

impl ContextKey {
    /// The role context `role`.
    pub fn user_role(role: &str) -> (k: Self)
        ensures
            k matches ContextKey::UserRole(r) && r@ == role@,
    {
        ContextKey::UserRole(role.to_string())
    }

    /// The device-class context `class`.
    pub fn device(class: &str) -> (k: Self)
        ensures
            k matches ContextKey::DeviceClass(c) && c@ == class@,
    {
        ContextKey::DeviceClass(class.to_string())
    }

    /// The hour context; hours past 23 are taken as 23.
    pub fn hour(h: u8) -> (k: Self)
        ensures
            k == ContextKey::HourOfDay(if h <= 23 { h } else { 23 }),
    {
        ContextKey::HourOfDay(if h <= 23 { h } else { 23 })
    }

    /// The free-form context `key`.
    pub fn custom(key: &str) -> (k: Self)
        ensures
            k matches ContextKey::Custom(c) && c@ == key@,
    {
        ContextKey::Custom(key.to_string())
    }
}

} // verus!
