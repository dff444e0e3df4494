//! The endpoints of the addon catalogue service: where the global
//! configuration lies, which game entry of it names the game's feeds, and
//! the feed addresses themselves. The requests are made by the caller; the
//! client here keeps and derives the addresses.

use vstd::prelude::*;
use crate::cli::{int_text, int_to_string};
use crate::config::Config;
use crate::text::{push_str, str_eq};

verus! {

/// The file the catalogue keeps its global configuration in.
pub open spec fn global_config_file() -> Seq<char> {
    "globalconfig.json"@
}

/// The game whose feeds are wanted.
pub open spec fn game_id() -> Seq<char> {
    "ESO"@
}

/// One game of the global configuration and where its configuration lies.
pub struct GameConfig {
    pub game_id: String,
    pub game_config: String,
}

/// The global configuration of the catalogue.
pub struct GlobalConfig {
    pub games: Vec<GameConfig>,
}

/// The feeds of a game.
pub struct EsoGameConfig {
    pub file_list: String,
    pub file_details: String,
    pub list_files: String,
    pub category_list: String,
}

/// A game's configuration.
pub struct EsoApiFeeds {
    pub api_feeds: EsoGameConfig,
}

/// A category of the catalogue, as the feed lists it.
pub struct Category {
    pub id: String,
    pub title: String,
    pub icon: String,
    pub file_count: String,
    pub parent_ids: Vec<String>,
}

/// The details of an addon, as plain values: the date is the text the
/// catalogue stores.
pub struct FileDetails {
    pub id: String,
    pub category: String,
    pub version: String,
    pub date: String,
    pub md5: String,
    pub file_name: String,
    pub download_url: String,
    pub pending: String,
    pub name: String,
    pub author_name: String,
    pub description: String,
    pub change_log: String,
    pub hit_count: String,
    pub hit_count_monthly: String,
    pub favorite_total: String,
}

/// The addresses the client requests.
pub struct ApiClient {
    pub endpoint_url: String,
    pub game_config_url: String,
    pub file_list_url: String,
    pub file_details_url: String,
    pub list_files_url: String,
    pub category_list_url: String,
}

/// The configuration address of the first game entry, from `k` on, whose
/// id is the wanted game's.
pub open spec fn game_config_of(games: Seq<GameConfig>, k: int) -> Option<Seq<char>>
    decreases games.len() - k,
{
    if k < 0 || k >= games.len() {
        None
    } else if games[k].game_id@ == game_id() {
        Some(games[k].game_config@)
    } else {
        game_config_of(games, k + 1)
    }
}

impl ApiClient {
    /// A client of the catalogue at `endpoint_url`, with no feed known yet.
    pub fn new(endpoint_url: &str) -> (c: ApiClient)
        ensures
            c.endpoint_url@ == endpoint_url@,
            c.game_config_url@.len() == 0,
            c.file_list_url@.len() == 0,
            c.file_details_url@.len() == 0,
            c.list_files_url@.len() == 0,
            c.category_list_url@.len() == 0,
    {
        ApiClient {
            endpoint_url: endpoint_url.to_string(),
            game_config_url: String::new(),
            file_list_url: String::new(),
            file_details_url: String::new(),
            list_files_url: String::new(),
            category_list_url: String::new(),
        }
    }

    /// Where the global configuration is requested.
    pub fn global_config_url(&self) -> (r: String)
        ensures
            r@ == self.endpoint_url@ + "/"@ + global_config_file(),
    {
        let mut out = String::new();
        push_str(&mut out, self.endpoint_url.as_str());
        push_str(&mut out, "/");
        push_str(&mut out, "globalconfig.json");
        proof {
            assert(out@ =~= self.endpoint_url@ + "/"@ + global_config_file());
        }
        out
    }

    /// Takes the game's configuration address from the global
    /// configuration: the first entry for the game; without one the
    /// address stays as it was.
    pub fn select_game(&mut self, global: &GlobalConfig)
        ensures
            final(self).game_config_url@ == match game_config_of(global.games@, 0) {
                Some(u) => u,
                None => old(self).game_config_url@,
            },
            final(self).endpoint_url@ == old(self).endpoint_url@,
            final(self).file_list_url == old(self).file_list_url,
            final(self).file_details_url == old(self).file_details_url,
            final(self).list_files_url == old(self).list_files_url,
            final(self).category_list_url == old(self).category_list_url,
    {
        let mut k: usize = 0;
        while k < global.games.len()
            invariant
                k <= global.games@.len(),
                game_config_of(global.games@, 0) == game_config_of(global.games@, k as int),
                *self == *old(self),
            decreases global.games.len() - k,
        {
            let g = &global.games[k];
            if str_eq(g.game_id.as_str(), "ESO") {
                proof {
                    assert(game_config_of(global.games@, k as int) == Some(g.game_config@));
                }
                self.game_config_url = g.game_config.clone();
                return;
            }
            k += 1;
        }
    }

    /// Takes the feed addresses from the game's configuration.
    pub fn apply_feeds(&mut self, feeds: &EsoApiFeeds)
        ensures
            final(self).file_list_url@ == feeds.api_feeds.file_list@,
            final(self).file_details_url@ == feeds.api_feeds.file_details@,
            final(self).list_files_url@ == feeds.api_feeds.list_files@,
            final(self).category_list_url@ == feeds.api_feeds.category_list@,
            final(self).endpoint_url@ == old(self).endpoint_url@,
            final(self).game_config_url@ == old(self).game_config_url@,
    {
        self.file_list_url = feeds.api_feeds.file_list.clone();
        self.file_details_url = feeds.api_feeds.file_details.clone();
        self.list_files_url = feeds.api_feeds.list_files.clone();
        self.category_list_url = feeds.api_feeds.category_list.clone();
    }

    /// Takes the feed addresses saved in the configuration.
    pub fn update_endpoints_from_config(&mut self, config: &Config)
        ensures
            final(self).file_list_url@ == config.file_list@,
            final(self).file_details_url@ == config.file_details@,
            final(self).list_files_url@ == config.list_files@,
            final(self).category_list_url@ == config.category_list@,
            final(self).endpoint_url@ == old(self).endpoint_url@,
            final(self).game_config_url@ == old(self).game_config_url@,
    {
        self.file_list_url = config.file_list.clone();
        self.file_details_url = config.file_details.clone();
        self.list_files_url = config.list_files.clone();
        self.category_list_url = config.category_list.clone();
    }

    /// Where the details of addon `id` are requested.
    pub fn file_details_url_for(&self, id: i32) -> (r: String)
        ensures
            r@ == self.file_details_url@ + int_text(id as int) + ".json"@,
    {
        let mut out = String::new();
        push_str(&mut out, self.file_details_url.as_str());
        let n = int_to_string(id);
        push_str(&mut out, n.as_str());
        push_str(&mut out, ".json");
        proof {
            assert(out@ =~= self.file_details_url@ + int_text(id as int) + ".json"@);
        }
        out
    }
}

} // verus!
