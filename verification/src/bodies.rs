//! The bodies of TMDB answers: search pages, movies, series, seasons,
//! episodes and their external ids.
use vstd::prelude::*;

verus! {

/// A movie on a page of search results.
#[derive(Debug, Clone)]
pub struct PagedMovieBody {
    pub adult: bool,
    pub backdrop_path: Option<String>,
    pub genre_ids: Vec<u32>,
    pub id: u32,
    pub title: String,
    pub overview: String,
    pub poster_path: Option<String>,
    pub release_date: String,
}

/// A page of movie search results.
#[derive(Debug, Clone)]
pub struct MoviePageResultBody {
    pub page: u32,
    pub results: Vec<PagedMovieBody>,
    pub total_pages: u32,
    pub total_results: u32,
}

/// A series on a page of search results.
#[derive(Debug, Clone)]
pub struct PagedSeriesBody {
    pub adult: bool,
    pub backdrop_path: Option<String>,
    pub genre_ids: Vec<u32>,
    pub id: u32,
    pub overview: String,
    pub poster_path: Option<String>,
    pub first_air_date: Option<String>,
    pub name: String,
}

/// A page of series search results.
#[derive(Debug, Clone)]
pub struct SeriesPageResultBody {
    pub page: u32,
    pub results: Vec<PagedSeriesBody>,
    pub total_pages: u32,
    pub total_results: u32,
}

/// The collection a movie belongs to.
#[derive(Debug, Clone)]
pub struct CollectionBody {
    pub id: u32,
    pub name: String,
    pub poster_path: Option<String>,
    pub backdrop_path: Option<String>,
}

/// A genre.
#[derive(Debug, Clone)]
pub struct GenreBody {
    pub id: u32,
    pub name: String,
}

/// A production company.
#[derive(Debug, Clone)]
pub struct ProductionCompanyBody {
    pub id: u32,
    pub logo_path: Option<String>,
    pub name: String,
    pub origin_country: String,
}

/// A production country.
#[derive(Debug, Clone)]
pub struct ProductionCountryBody {
    pub iso_3166_1: String,
    pub name: String,
}

/// A spoken language.
#[derive(Debug, Clone)]
pub struct SpokenLanguageBody {
    pub english_name: String,
    pub iso_639_1: String,
}

/// The details of a movie.
#[derive(Debug, Clone)]
pub struct FullMovieBody {
    pub adult: bool,
    pub backdrop_path: String,
    pub belongs_to_collection: Option<CollectionBody>,
    pub genres: Vec<GenreBody>,
    pub id: u32,
    pub imdb_id: String,
    pub origin_country: Vec<String>,
    pub original_language: String,
    pub original_title: String,
    pub overview: String,
    pub poster_path: Option<String>,
    pub release_date: String,
    pub runtime: Option<u32>,
    pub spoken_languages: Vec<SpokenLanguageBody>,
    pub tagline: String,
    pub title: String,
}

/// A creator of a series.
#[derive(Debug, Clone)]
pub struct CreatedByBody {
    pub id: u32,
    pub credit_id: String,
    pub name: String,
    pub gender: u32,
    pub profile_path: Option<String>,
}

/// The last aired episode of a series.
#[derive(Debug, Clone)]
pub struct LastEpisodeToAirBody {
    pub id: u32,
    pub name: String,
    pub overview: String,
    pub air_date: Option<String>,
    pub episode_number: u32,
    pub production_code: String,
    pub runtime: Option<u32>,
    pub season_number: u32,
    pub show_id: u32,
    pub still_path: Option<String>,
}

/// A network that airs a series.
#[derive(Debug, Clone)]
pub struct NetworkBody {
    pub id: u32,
    pub logo_path: Option<String>,
    pub name: String,
    pub origin_country: String,
}

/// A season as listed with its series.
#[derive(Debug, Clone)]
pub struct SeasonBody {
    pub air_date: Option<String>,
    pub episode_count: u32,
    pub id: u32,
    pub name: String,
    pub overview: String,
    pub poster_path: Option<String>,
    pub season_number: u32,
}

/// The details of a series.
#[derive(Debug, Clone)]
pub struct FullSeriesBody {
    pub adult: bool,
    pub backdrop_path: Option<String>,
    pub created_by: Vec<CreatedByBody>,
    pub episode_run_time: Vec<u32>,
    pub first_air_date: Option<String>,
    pub genres: Vec<GenreBody>,
    pub id: u32,
    pub in_production: bool,
    pub languages: Vec<String>,
    pub last_air_date: Option<String>,
    pub last_episode_to_air: Option<LastEpisodeToAirBody>,
    pub name: String,
    pub next_episode_to_air: Option<String>,
    pub networks: Vec<NetworkBody>,
    pub number_of_episodes: u32,
    pub number_of_seasons: u32,
    pub origin_country: Vec<String>,
    pub original_language: String,
    pub original_name: String,
    pub overview: String,
    pub poster_path: Option<String>,
    pub seasons: Vec<SeasonBody>,
    pub spoken_languages: Vec<SpokenLanguageBody>,
}

/// A crew member of an episode.
#[derive(Debug, Clone)]
pub struct CrewBody {
    pub department: String,
    pub job: String,
    pub credit_id: String,
    pub adult: bool,
    pub id: u32,
    pub known_for_department: String,
    pub name: String,
    pub original_name: String,
    pub profile_path: Option<String>,
}

/// A guest star of an episode.
#[derive(Debug, Clone)]
pub struct GuestStarBody {
    pub character: String,
    pub adult: bool,
    pub id: u32,
    pub known_for_department: String,
    pub name: String,
    pub original_name: String,
    pub profile_path: Option<String>,
}

/// An episode as listed with its season.
#[derive(Debug, Clone)]
pub struct EpisodeBody {
    pub air_date: Option<String>,
    pub episode_number: u32,
    pub episode_type: String,
    pub id: u32,
    pub name: String,
    pub overview: String,
    pub runtime: Option<u32>,
    pub season_number: u32,
    pub show_id: u32,
    pub still_path: String,
    pub crew: Vec<CrewBody>,
    pub guest_stars: Vec<GuestStarBody>,
}

/// The details of a season.
#[derive(Debug, Clone)]
pub struct FullSeasonBody {
    pub air_date: Option<String>,
    pub episodes: Vec<EpisodeBody>,
    pub name: String,
    pub networks: NetworkBody,
    pub overview: String,
    pub id: u32,
    pub poster_path: String,
    pub season_number: u32,
}

/// The details of an episode.
#[derive(Debug, Clone)]
pub struct FullEpisodeBody {
    pub air_date: Option<String>,
    pub crew: Vec<CrewBody>,
    pub episode_number: u32,
    pub guest_stars: Vec<GuestStarBody>,
    pub name: String,
    pub overview: String,
    pub id: u32,
    pub runtime: Option<u32>,
    pub season_number: u32,
    pub still_path: Option<String>,
}

/// The ids of a movie elsewhere (IMDb).
#[derive(Debug, Clone)]
pub struct MovieExternalIDsBody {
    pub id: u32,
    pub imdb_id: String,
}

/// The ids of a series elsewhere (IMDb).
#[derive(Debug, Clone)]
pub struct SeriesExternalIDsBody {
    pub id: u32,
    pub imdb_id: String,
}

/// The ids of a season elsewhere (IMDb).
#[derive(Debug, Clone)]
pub struct SeasonExternalIDsBody {
    pub id: u32,
    pub imdb_id: String,
}

/// The ids of an episode elsewhere (IMDb).
#[derive(Debug, Clone)]
pub struct EpisodeExternalIDsBody {
    pub id: u32,
    pub imdb_id: String,
}

} // verus!
