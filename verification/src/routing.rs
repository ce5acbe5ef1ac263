//! Where a queried name leads: the registry of suffixes, the endings that
//! names are matched against, and the argument that a name hands to its
//! service.

use vstd::prelude::*;
use crate::dns::{txt_record, RecordType, RecordView};
use crate::search::{first_index, lemma_first_index, lemma_first_index_is, lemma_first_index_none};
use crate::text::{
    ends_with, lemma_ending_of_ending, lemma_ending_without_tail, lemma_endings_nest, retain,
    trim_end_char, trim_end_seq,
};

verus! {

/// Whether `c` may stand in a cleaned argument: an ASCII letter or digit, or
/// one of `/ - . : ,`.
pub open spec fn is_argument_char(c: char) -> bool {
    ||| 'a' <= c <= 'z'
    ||| 'A' <= c <= 'Z'
    ||| '0' <= c <= '9'
    ||| c == '/'
    ||| c == '-'
    ||| c == '.'
    ||| c == ':'
    ||| c == ','
}

/// [`is_argument_char`] as a filter.
pub open spec fn argument_chars() -> spec_fn(char) -> bool {
    |c: char| is_argument_char(c)
}

/// What is left of `query` once its final dots and then the repetitions of
/// `suffix` at its end are cut off, and every character that may not stand
/// in an argument is deleted.
pub open spec fn cleaned(query: Seq<char>, suffix: Seq<char>) -> Seq<char> {
    retain(trim_end_seq(trim_end_char(query, '.'), suffix), argument_chars())
}

/// A service and the suffix that it is registered under.
pub struct Registered<S> {
    pub suffix: String,
    pub service: S,
}

/// The suffixes of the registered services, in their order.
pub open spec fn suffixes_of<S>(services: Seq<Registered<S>>) -> Seq<Seq<char>> {
    Seq::new(services.len(), |i: int| services[i].suffix@)
}

/// The service that is found under `suffix`: the first registered under it.
pub open spec fn service_at<S>(services: Seq<Registered<S>>, suffix: Seq<char>) -> Option<S> {
    match position(suffixes_of(services), suffix) {
        Some(i) => Some(services[i].service),
        None => None,
    }
}

/// The registry after `entry` is registered: it takes the place of the
/// first entry with its suffix, or comes last where there is none.
pub open spec fn registered<S>(services: Seq<Registered<S>>, entry: Registered<S>) -> Seq<
    Registered<S>,
> {
    match position(suffixes_of(services), entry.suffix@) {
        Some(i) => services.update(i, entry),
        None => services.push(entry),
    }
}

/// The suffixes with `suffix` among them: it comes last where it is new.
pub open spec fn with_suffix(suffixes: Seq<Seq<char>>, suffix: Seq<char>) -> Seq<Seq<char>> {
    if position(suffixes, suffix) is Some {
        suffixes
    } else {
        suffixes.push(suffix)
    }
}

/// After a service is registered under a suffix, it is the one found under
/// that suffix; what is found under any other suffix is what was found
/// before; and the suffixes keep their order.
pub proof fn lemma_registered<S>(services: Seq<Registered<S>>, entry: Registered<S>)
    ensures
        service_at(registered(services, entry), entry.suffix@) == Some(entry.service),
        forall|other: Seq<char>|
            other != entry.suffix@ ==> #[trigger] service_at(registered(services, entry), other)
                == service_at(services, other),
        suffixes_of(registered(services, entry)) == with_suffix(
            suffixes_of(services),
            entry.suffix@,
        ),
{
    let before = suffixes_of(services);
    let after = suffixes_of(registered(services, entry));
    let n = before.len() as int;
    lemma_first_index(n, equals_at(before, entry.suffix@));
    match position(before, entry.suffix@) {
        Some(i) => {
            assert(equals_at(before, entry.suffix@)(i));
            assert(after =~= before);
            assert forall|other: Seq<char>| other != entry.suffix@ implies #[trigger] service_at(
                registered(services, entry),
                other,
            ) == service_at(services, other) by {
                lemma_first_index(n, equals_at(before, other));
                match position(before, other) {
                    Some(j) => {
                        assert(equals_at(before, other)(j));
                    },
                    None => {},
                }
            }
        },
        None => {
            assert(after =~= before.push(entry.suffix@));
            assert(equals_at(after, entry.suffix@)(n));
            assert forall|j: int| 0 <= j < n implies !(#[trigger] equals_at(after, entry.suffix@)(
                j,
            )) by {
                assert(!equals_at(before, entry.suffix@)(j));
            }
            lemma_first_index_is(n + 1, equals_at(after, entry.suffix@), n);
            assert forall|other: Seq<char>| other != entry.suffix@ implies #[trigger] service_at(
                registered(services, entry),
                other,
            ) == service_at(services, other) by {
                lemma_first_index(n, equals_at(before, other));
                match position(before, other) {
                    Some(j) => {
                        assert(equals_at(before, other)(j));
                        assert(equals_at(after, other)(j));
                        assert forall|k: int| 0 <= k < j implies !(#[trigger] equals_at(
                            after,
                            other,
                        )(k)) by {
                            assert(!equals_at(before, other)(k));
                        }
                        lemma_first_index_is(n + 1, equals_at(after, other), j);
                    },
                    None => {
                        assert forall|k: int| 0 <= k < n + 1 implies !(#[trigger] equals_at(
                            after,
                            other,
                        )(k)) by {
                            if k < n {
                                assert(!equals_at(before, other)(k));
                            }
                        }
                        lemma_first_index_none(n + 1, equals_at(after, other));
                    },
                }
            }
        },
    }
}

/// Where a queried name leads.
#[derive(Clone, Copy, Debug, PartialEq, Eq, Structural)]
pub enum Route {
    /// To the help records.
    Help,
    /// To the registered service at this position.
    Service(usize),
    /// Nowhere: no service is registered for the name.
    Unknown,
}

/// The ending of the names that ask for help: `help.<domain>.`
pub open spec fn help_pattern(domain: Seq<char>) -> Seq<char> {
    "help."@ + domain + "."@
}

/// The ending of the names that hand an argument to the service under
/// `suffix`, without the final dot: `.<suffix>.<domain>`
pub open spec fn dotted_suffix(suffix: Seq<char>, domain: Seq<char>) -> Seq<char> {
    "."@ + suffix + "."@ + domain
}

/// The ending of the names that ask the service under `suffix` without an
/// argument, without the final dot: `<suffix>.<domain>`
pub open spec fn bare_suffix(suffix: Seq<char>, domain: Seq<char>) -> Seq<char> {
    suffix + "."@ + domain
}

/// The queried name belongs to the service under `suffix`: it ends with
/// `.<suffix>.<domain>.` or with `<suffix>.<domain>.`
pub open spec fn suffix_matches(name: Seq<char>, suffix: Seq<char>, domain: Seq<char>) -> bool {
    ends_with(name, dotted_suffix(suffix, domain) + "."@) || ends_with(
        name,
        bare_suffix(suffix, domain) + "."@,
    )
}

/// The test, for a position, that `name` belongs to the suffix there.
pub open spec fn matches_at(suffixes: Seq<Seq<char>>, domain: Seq<char>, name: Seq<char>) -> spec_fn(
    int,
) -> bool {
    |i: int| suffix_matches(name, suffixes[i], domain)
}

/// The position of the first suffix that `name` belongs to.
pub open spec fn first_match(suffixes: Seq<Seq<char>>, domain: Seq<char>, name: Seq<char>) -> Option<
    int,
> {
    first_index(suffixes.len() as int, matches_at(suffixes, domain, name))
}

/// The test, for a position, that the suffix there is `suffix`.
pub open spec fn equals_at(suffixes: Seq<Seq<char>>, suffix: Seq<char>) -> spec_fn(int) -> bool {
    |i: int| suffixes[i] == suffix
}

/// The position of the first suffix that equals `suffix`.
pub open spec fn position(suffixes: Seq<Seq<char>>, suffix: Seq<char>) -> Option<int> {
    first_index(suffixes.len() as int, equals_at(suffixes, suffix))
}

/// Where `name` leads: to the help where it ends with [`help_pattern`];
/// otherwise to the first registered suffix that it belongs to, in the order
/// of registration; otherwise nowhere.
pub open spec fn route_of(suffixes: Seq<Seq<char>>, domain: Seq<char>, name: Seq<char>) -> Route {
    if ends_with(name, help_pattern(domain)) {
        Route::Help
    } else {
        match first_match(suffixes, domain, name) {
            Some(i) => Route::Service(i as usize),
            None => Route::Unknown,
        }
    }
}

/// No suffix is the ending of another: then no name belongs to two of them.
pub open spec fn overlap_free(suffixes: Seq<Seq<char>>) -> bool {
    forall|i: int, j: int|
        0 <= i < suffixes.len() && 0 <= j < suffixes.len() && i != j ==> !ends_with(
            #[trigger] suffixes[i],
            #[trigger] suffixes[j],
        )
}

/// Dispatch does not depend on the order of registration where no suffix
/// is the ending of another: a name belongs to one registered suffix at
/// most, and the route leads to that one.
pub proof fn lemma_route_unique(
    suffixes: Seq<Seq<char>>,
    domain: Seq<char>,
    name: Seq<char>,
    i: int,
    j: int,
)
    requires
        overlap_free(suffixes),
        0 <= i < suffixes.len(),
        0 <= j < suffixes.len(),
        suffix_matches(name, suffixes[i], domain),
        suffix_matches(name, suffixes[j], domain),
    ensures
        i == j,
        !ends_with(name, help_pattern(domain)) ==> route_of(suffixes, domain, name)
            == Route::Service(i as usize),
{
    let tail = "."@ + domain + "."@;
    lemma_bare_ending(name, suffixes[i], domain);
    lemma_bare_ending(name, suffixes[j], domain);
    assert(bare_suffix(suffixes[i], domain) + "."@ =~= suffixes[i] + tail);
    assert(bare_suffix(suffixes[j], domain) + "."@ =~= suffixes[j] + tail);
    if suffixes[i].len() <= suffixes[j].len() {
        lemma_endings_nest(name, suffixes[i] + tail, suffixes[j] + tail);
        lemma_ending_without_tail(suffixes[i], suffixes[j], tail);
    } else {
        lemma_endings_nest(name, suffixes[j] + tail, suffixes[i] + tail);
        lemma_ending_without_tail(suffixes[j], suffixes[i], tail);
    }
    lemma_first_index(suffixes.len() as int, matches_at(suffixes, domain, name));
    match first_match(suffixes, domain, name) {
        Some(k) => {
            assert(matches_at(suffixes, domain, name)(k));
            lemma_bare_ending(name, suffixes[k], domain);
            assert(bare_suffix(suffixes[k], domain) + "."@ =~= suffixes[k] + tail);
            if k != i {
                if suffixes[i].len() <= suffixes[k].len() {
                    lemma_endings_nest(name, suffixes[i] + tail, suffixes[k] + tail);
                    lemma_ending_without_tail(suffixes[i], suffixes[k], tail);
                } else {
                    lemma_endings_nest(name, suffixes[k] + tail, suffixes[i] + tail);
                    lemma_ending_without_tail(suffixes[k], suffixes[i], tail);
                }
            }
        },
        None => {
            assert(!matches_at(suffixes, domain, name)(i));
        },
    }
}

/// A name that belongs to a suffix ends with `<suffix>.<domain>.`
pub proof fn lemma_bare_ending(name: Seq<char>, suffix: Seq<char>, domain: Seq<char>)
    requires
        suffix_matches(name, suffix, domain),
    ensures
        ends_with(name, bare_suffix(suffix, domain) + "."@),
{
    if ends_with(name, dotted_suffix(suffix, domain) + "."@) {
        assert(dotted_suffix(suffix, domain) + "."@ =~= "."@ + (bare_suffix(suffix, domain)
            + "."@));
        lemma_ending_of_ending(name, "."@, bare_suffix(suffix, domain) + "."@);
    }
}

/// The argument that a queried name hands to the service under `suffix`:
/// the name without its final dots and without `.<suffix>.<domain>` at its
/// end, or, where it does not end so, without `<suffix>.<domain>`; of this
/// only the characters that may stand in an argument.
pub open spec fn cleaned_argument(name: Seq<char>, suffix: Seq<char>, domain: Seq<char>) -> Seq<
    char,
> {
    if ends_with(trim_end_char(name, '.'), dotted_suffix(suffix, domain)) {
        cleaned(name, dotted_suffix(suffix, domain))
    } else {
        cleaned(name, bare_suffix(suffix, domain))
    }
}

/// The text of an error record.
pub open spec fn error_text(error_msg: Seq<char>) -> Seq<char> {
    "error: "@ + error_msg
}

/// How long an error record may be cached, in seconds.
pub const ERROR_TTL: u32 = 1;

/// How long a plain text answer may be cached, in seconds.
pub const RESPONSE_TTL: u32 = 60;

/// The record that answers a name that leads nowhere.
pub open spec fn unknown_record(name: Seq<char>, domain: Seq<char>) -> RecordView {
    txt_record(name, ERROR_TTL, error_text("unknown query, try: dig help @"@ + domain))
}

/// Only questions for text and for IPv4 addresses are handed to a service.
pub open spec fn forwards(query_type: RecordType) -> bool {
    query_type == RecordType::TXT || query_type == RecordType::A
}

} // verus!
