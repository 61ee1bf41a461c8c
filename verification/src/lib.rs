//! Verified core of the Team Fortress 2 frag demo helper.
pub mod analysis;
pub mod arrange;
pub mod batches;
pub mod bookmarks;
pub mod camera;
pub mod candidates;
pub mod capture;
pub mod clips;
pub mod deaths;
pub mod details;
pub mod director;
pub mod double;
pub mod encoding;
pub mod events;
pub mod evidence;
pub mod filter;
pub mod finalize;
pub mod floating;
pub mod followups;
pub mod form;
pub mod hashes;
pub mod keyed;
pub mod launch;
pub mod models;
pub mod modes;
pub mod monitor;
pub mod motion;
pub mod number;
pub mod order;
pub mod preflight;
pub mod prepare;
pub mod profile;
pub mod queue;
pub mod record;
pub mod recordings;
pub mod recovery;
pub mod roots;
pub mod rounds;
pub mod scheduler;
pub mod schema;
pub mod scoring;
pub mod scripts;
pub mod sequence;
pub mod settings;
pub mod shortcuts;
pub mod shots;
pub mod space;
pub mod status;
pub mod text;
pub mod tracking;
pub mod tracks;
pub mod vdm;
pub mod view;
pub mod weapons;
