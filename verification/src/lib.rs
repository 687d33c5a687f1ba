//! Verified core of a small image-sharing web service: signed client cookies,
//! id allocation, SQL literal escaping, the compact message format, and the
//! request decisions of its handlers.
pub mod activity;
pub mod anypack;
pub mod assoc;
pub mod channel;
pub mod fav_month;
pub mod gid;
pub mod handlers;
pub mod kvconf;
pub mod sqlval;
pub mod text;
pub mod token;
pub mod vbyte_codec;
