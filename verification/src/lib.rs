pub mod ext;
pub mod buffer;
pub mod introspection;
pub mod id;
pub mod data;
pub mod sink;
pub mod store;
pub mod timeline;
pub mod player;
pub mod schemas;
pub mod serialized;
pub mod queue;
pub mod output;
pub mod wave;
pub mod interleave;
pub mod errors;
pub mod auth;
pub mod text;
pub mod url;
pub mod inputs;
pub mod rooms;
pub mod loading;
pub mod buffer_laws;
pub mod queuing;
pub mod decoding;
