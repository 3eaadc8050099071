//! Construction of the outbound request URLs.
//!
//! One URL shape per entity kind: the primary (movie) kind asks for the
//! record with its credits and related-entity lists appended, the secondary
//! (person) kind asks for the person with their movie credits appended.
//! Each URL is the fixed scheme-and-path prefix, the decimal identifier,
//! and the fixed query suffix carrying the access credential.

use vstd::prelude::*;
use vstd::string::StringExecFns;

verus! {

/// The decimal digit characters in value order.
pub open spec fn digit_char(d: nat) -> char {
    seq!['0', '1', '2', '3', '4', '5', '6', '7', '8', '9'][d as int]
}

/// The decimal numeral of `n`, most significant digit first, no sign and
/// no padding.
pub open spec fn decimal_of(n: nat) -> Seq<char>
    decreases n,
{
    if n < 10 {
        seq![digit_char(n)]
    } else {
        decimal_of(n / 10).push(digit_char(n % 10))
    }
}

/// Relies on std's `Display` for `usize`: formatting an unsigned integer
/// yields its plain decimal numeral.
#[verifier::external_body]
fn usize_to_string(n: usize) -> (s: String)
    ensures
        s@ == decimal_of(n as nat),
{
    format!("{}", n)
}

/// The URL asking for the primary record with identifier `id`.
pub open spec fn spec_movie_url(api_key: Seq<char>, id: nat) -> Seq<char> {
    "https://api.themoviedb.org/3/movie/"@ + decimal_of(id) + "?api_key="@ + api_key
        + "&language=en-US&append_to_response=credits%2Ckeywords%2Csimilar%2Crecommendations"@
}

/// The URL asking for the secondary (person) record with identifier `id`.
pub open spec fn spec_actor_url(api_key: Seq<char>, id: nat) -> Seq<char> {
    "https://api.themoviedb.org/3/person/"@ + decimal_of(id) + "?api_key="@ + api_key
        + "&language=en-US&append_to_response=movie_credits"@
}

/// Construct the request URL for the primary record with identifier `id`,
/// carrying the given access credential.
pub fn make_movie_url(api_key: &String, id: usize) -> (url: String)
    ensures
        url@ == spec_movie_url(api_key@, id as nat),
{
    let mut url = String::from_str("https://api.themoviedb.org/3/movie/");
    let id_str = usize_to_string(id);
    url.append(id_str.as_str());
    url.append("?api_key=");
    url.append(api_key.as_str());
    url.append("&language=en-US&append_to_response=credits%2Ckeywords%2Csimilar%2Crecommendations");
    proof {
        assert(url@ =~= spec_movie_url(api_key@, id as nat));
    }
    url
}

/// Construct the request URL for the secondary (person) record with
/// identifier `id`, carrying the given access credential.
pub fn make_actor_url(api_key: &String, id: usize) -> (url: String)
    ensures
        url@ == spec_actor_url(api_key@, id as nat),
{
    let mut url = String::from_str("https://api.themoviedb.org/3/person/");
    let id_str = usize_to_string(id);
    url.append(id_str.as_str());
    url.append("?api_key=");
    url.append(api_key.as_str());
    url.append("&language=en-US&append_to_response=movie_credits");
    proof {
        assert(url@ =~= spec_actor_url(api_key@, id as nat));
    }
    url
}

} // verus!
