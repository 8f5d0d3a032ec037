//! Economy core of an idle-clicker game: the player's state, generator
//! pricing and purchases, click rewards, interval timers for passive income
//! and saving, fading coin markers, the saved record and the display text.

pub mod accrual;
pub mod click;
pub mod effects;
mod limbs;
pub mod pricing;
pub mod purchase;
pub mod record;
pub mod state;
pub mod text;
pub mod timer;
