//! Notes, scores, and the MIDI events they compile to.
//!
//! A [`Score`] is a list of [`Note`]s. [`Score::to_track`] compiles it into a
//! track: the note-on and note-off events of all notes in time order, each
//! with the ticks since the event before it. [`Score::to_midi`] wraps that
//! track into a `midly` file, and [`Score::playback`] turns it into the waits
//! and wire messages of a performance in real time.
//!
//! Every function is verified against the contract it carries; where a
//! contract leans on code outside this crate, the item that says what is
//! taken on trust stands next to it.

pub mod event;
pub mod midi;
pub mod note;
pub mod order;
pub mod playback;
pub mod score;
pub mod track;

pub use note::Note;
pub use score::Score;
