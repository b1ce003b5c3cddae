pub mod beat;
pub mod note;
pub mod phrase;
pub mod pitch;
pub mod tempo;
pub mod track;

pub use beat::Beat;
pub use note::{Note, NoteOrder, PitchNote, SampleNote};
pub use phrase::{Phrase, PitchPhrase, SamplePhrase};
pub use pitch::Pitch;
pub use tempo::Tempo;
pub use track::{Instrument, Track};
