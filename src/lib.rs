//! Republishes a daily illustration ranking into a chat channel.
//!
//! The library holds the logic of that pipeline: fitting images under the
//! delivery transport's size and dimension limits, turning fetched details into
//! records, building captions and delivery units, deciding on retries, and
//! sorting per-record outcomes. Network and chat I/O stay with the caller.
use vstd::prelude::*;

pub mod fitting;
pub mod delivery;
pub mod record;
pub mod caption;
pub mod pipeline;

verus! {

/// What a run needs: the bot token, the chat to post to, how many ranking
/// pages to fetch, and whether to fetch the restricted ranking.
#[derive(Clone, Debug)]
pub struct Config {
    token: String,
    chat_id: i64,
    pages: u32,
    r18: bool,
}

impl Config {
    pub closed spec fn spec_token(&self) -> String {
        self.token
    }

    pub closed spec fn spec_chat_id(&self) -> i64 {
        self.chat_id
    }

    pub closed spec fn spec_pages(&self) -> u32 {
        self.pages
    }

    pub closed spec fn spec_r18(&self) -> bool {
        self.r18
    }

    pub fn new(token: String, chat_id: i64, pages: u32, r18: bool) -> (r: Config)
        ensures
            r.spec_token() == token,
            r.spec_chat_id() == chat_id,
            r.spec_pages() == pages,
            r.spec_r18() == r18,
    {
        Config { token, chat_id, pages, r18 }
    }

    pub fn token(&self) -> (r: &String)
        ensures
            *r == self.spec_token(),
    {
        &self.token
    }

    pub fn chat_id(&self) -> (r: i64)
        ensures
            r == self.spec_chat_id(),
    {
        self.chat_id
    }

    pub fn pages(&self) -> (r: u32)
        ensures
            r == self.spec_pages(),
    {
        self.pages
    }

    pub fn r18(&self) -> (r: bool)
        ensures
            r == self.spec_r18(),
    {
        self.r18
    }
}

} // verus!
