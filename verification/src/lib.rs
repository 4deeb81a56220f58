//! The verified core of the Sonora player: the jam's clock, lead, wire protocol, server and
//! listener decisions; the play queue; the home page's feed and Quick picks; the library's
//! shelves, saved items and what the playlists hold; scrobbling; the album artwork; the media
//! controls; the local folders and their scan; the network's state; the search matching the
//! lists use; the page served to browser listeners; and the reading of the Widevine module's
//! download.

pub mod alike;
pub mod archive;
pub mod cast;
pub mod cdm;
pub mod clock;
pub mod contents;
pub mod cover;
pub mod feed;
pub mod folders;
pub mod home;
pub mod jam;
pub mod json;
pub mod lead;
pub mod library;
pub mod network;
pub mod queue;
pub mod receiver;
pub mod remote;
pub mod scan;
pub mod scrobble;
pub mod server;
pub mod snapshot;
pub mod template;
pub mod text;
pub mod track;
pub mod webview;
pub mod wire;
