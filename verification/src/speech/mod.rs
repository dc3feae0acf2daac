pub mod simple;

pub use simple::make_simple_speech_text;
