//! The addresses of the TMDB and bridge calls.
use vstd::prelude::*;

use crate::request::concat;
use crate::text::{decimal, decimal_string};
use crate::urls::{join_url, set_url_query, url_join, url_with_query};

verus! {

/// The TMDB proxy every information call goes to.
pub const TMDB_API_URL: &'static str = "https://tmdb-proxy-chi-ivory.vercel.app";

/// The TMDB address of `path`.
pub open spec fn tmdb_url(path: Seq<char>) -> Seq<char> {
    "https://tmdb-proxy-chi-ivory.vercel.app"@ + path
}

/// The decimal text of a number.
pub open spec fn dec(n: u32) -> Seq<char> {
    decimal(n as nat)
}

fn append_number(s: &mut String, n: u32)
    ensures
        final(s)@ == old(s)@ + dec(n),
{
    let d = decimal_string(n as u64);
    s.append(d.as_str());
}

/// The address of a movie search with the query string `parameters`.
pub fn tmdb_search_movies_url(parameters: &str) -> (u: String)
    ensures
        u@ == tmdb_url("/search/movie?"@ + parameters@),
{
    let mut u = concat(TMDB_API_URL, "/search/movie?");
    u.append(parameters);
    u
}

/// The address of a series search with the query string `parameters`.
pub fn tmdb_search_series_url(parameters: &str) -> (u: String)
    ensures
        u@ == tmdb_url("/search/tv?"@ + parameters@),
{
    let mut u = concat(TMDB_API_URL, "/search/tv?");
    u.append(parameters);
    u
}

/// The address of a movie's details.
pub fn tmdb_movie_url(movie_id: u32) -> (u: String)
    ensures
        u@ == tmdb_url("/movie/"@ + dec(movie_id)),
{
    let mut u = concat(TMDB_API_URL, "/movie/");
    append_number(&mut u, movie_id);
    u
}

/// The address of a movie's external ids.
pub fn tmdb_movie_external_ids_url(movie_id: u32) -> (u: String)
    ensures
        u@ == tmdb_url("/movie/"@ + dec(movie_id) + "/external_ids"@),
{
    let mut u = tmdb_movie_url(movie_id);
    u.append("/external_ids");
    u
}

/// The address of a series' details.
pub fn tmdb_series_url(series_id: u32) -> (u: String)
    ensures
        u@ == tmdb_url("/tv/"@ + dec(series_id)),
{
    let mut u = concat(TMDB_API_URL, "/tv/");
    append_number(&mut u, series_id);
    u
}

/// The address of a series' external ids.
pub fn tmdb_series_external_ids_url(series_id: u32) -> (u: String)
    ensures
        u@ == tmdb_url("/tv/"@ + dec(series_id) + "/external_ids"@),
{
    let mut u = tmdb_series_url(series_id);
    u.append("/external_ids");
    u
}

/// The address of a season's details.
pub fn tmdb_season_url(series_id: u32, season_number: u32) -> (u: String)
    ensures
        u@ == tmdb_url("/tv/"@ + dec(series_id) + "/season/"@ + dec(season_number)),
{
    let mut u = tmdb_series_url(series_id);
    u.append("/season/");
    append_number(&mut u, season_number);
    u
}

/// The address of a season's external ids.
pub fn tmdb_season_external_ids_url(series_id: u32, season_number: u32) -> (u: String)
    ensures
        u@ == tmdb_url(
            "/tv/"@ + dec(series_id) + "/season/"@ + dec(season_number) + "/external_ids"@,
        ),
{
    let mut u = tmdb_season_url(series_id, season_number);
    u.append("/external_ids");
    u
}

/// The address of an episode's details.
pub fn tmdb_episode_url(series_id: u32, season_number: u32, episode_number: u32) -> (u: String)
    ensures
        u@ == tmdb_url(
            "/tv/"@ + dec(series_id) + "/season/"@ + dec(season_number) + "/episode/"@ + dec(
                episode_number,
            ),
        ),
{
    let mut u = tmdb_season_url(series_id, season_number);
    u.append("/episode/");
    append_number(&mut u, episode_number);
    u
}

/// The address of an episode's external ids.
pub fn tmdb_episode_external_ids_url(series_id: u32, season_number: u32, episode_number: u32) -> (u:
    String)
    ensures
        u@ == tmdb_url(
            "/tv/"@ + dec(series_id) + "/season/"@ + dec(season_number) + "/episode/"@ + dec(
                episode_number,
            ) + "/external_ids"@,
        ),
{
    let mut u = tmdb_episode_url(series_id, season_number, episode_number);
    u.append("/external_ids");
    u
}

/// The bridge path that searches an indexer's streams: of a movie, or of an
/// episode of a series.
pub open spec fn bridge_path(based_on: Seq<char>, series: bool) -> Seq<char> {
    "/api/"@ + based_on + (if series { "/series"@ } else { "/movie"@ })
}

/// The bridge path that searches an indexer's streams: of a movie, or of an
/// episode of a series.
pub fn bridge_search_path(based_on: &str, series: bool) -> (p: String)
    ensures
        p@ == bridge_path(based_on@, series),
{
    let mut p = concat("/api/", based_on);
    if series {
        p.append("/series");
    } else {
        p.append("/movie");
    }
    p
}

/// The address of a bridge search: the search path resolved against the
/// bridge's URL, with the query string `query`; `None` where the bridge's
/// URL does not parse or the path does not resolve against it.
pub fn bridge_search_url(bridge_url: &str, based_on: &str, series: bool, query: &str) -> (r: Option<String>)
    ensures
        match url_join(bridge_url@, bridge_path(based_on@, series)) {
            Some(joined) => match r {
                Some(u) => url_with_query(joined, query@) == Some(u@),
                None => url_with_query(joined, query@) is None,
            },
            None => r is None,
        },
{
    let path = bridge_search_path(based_on, series);
    match join_url(bridge_url, path.as_str()) {
        Some(joined) => set_url_query(joined.as_str(), query),
        None => None,
    }
}

} // verus!
