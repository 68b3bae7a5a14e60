pub mod model;
pub mod text;
pub mod bytes;
pub mod fields;
pub mod retain;
pub mod floatbits;
pub mod values;
pub mod names;
pub mod effects;
pub mod quest;
pub mod conditions;
pub mod strip;
pub mod normalize;
pub mod markers;
pub mod workshop;
pub mod scopes;
pub mod pack;
pub mod leveled;
pub mod lights;
pub mod actors;
pub mod furniture;
pub mod scenes;
pub mod xcri;
pub mod omod;
pub mod radio;
pub mod story;
pub mod cndf;
pub mod light_limits;
pub mod dialogue;
pub mod vmad;
pub mod flags;
pub mod hook;
pub mod laws;
pub mod marker_laws;
