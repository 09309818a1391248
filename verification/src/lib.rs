//! The decision-making core of an e-mail connectivity tester: DNS-side
//! checks of a mail domain (record parsing, interpretation and rendering),
//! locale normalisation, per-locale font candidates and the choice of a
//! provider preset, with their contracts proved by Verus.

pub mod cli;
pub mod dns;
pub mod fonts;
pub mod locale;
pub mod text;
