//! Social graph: public profile documents, the follow list, and the
//! concurrent profile aggregation's pure core. The caller fetches the
//! objects; this module parses bodies and builds the result rows,
//! preserving input order and never dropping a followed account.

use vstd::prelude::*;
use vstd::string::StringSliceAdditionalSpecFns;
use crate::encoding::{str_to_bytes, string_from_utf8};
use crate::json::{
    parse_string_token, skip_value, skip_ws, spec_skip_value, spec_string, spec_ws, suffix_of,
};
use crate::wire::{member_sep, opt_bytes_view, read_member_sep};

verus! {

/// One link entry of a public profile.
pub struct Link {
    /// Display title of the link.
    pub title: String,
    /// Target URL.
    pub url: String,
}

/// A public profile document.
pub struct PubkyProfile {
    /// Display name; the one required member.
    pub name: String,
    /// Free-form biography.
    pub bio: Option<String>,
    /// Avatar image reference.
    pub image: Option<String>,
    /// Listed links.
    pub links: Option<Vec<Link>>,
    /// Status line.
    pub status: Option<String>,
}

/// A followed account with its resolved display name, if any.
pub struct FollowedUser {
    /// Display name from the account's profile, when one was found.
    pub name: Option<String>,
    /// The account's public-key identifier.
    pub pubky: String,
}

/// A string value or JSON null.
pub open spec fn spec_string_or_null(after: Seq<u8>) -> Option<(Option<Seq<u8>>, Seq<u8>)> {
    let t = spec_ws(after);
    if t.len() >= 4 && t[0] == 110 && t[1] == 117 && t[2] == 108 && t[3] == 108 {
        Some((None, t.skip(4)))
    } else {
        match spec_string(t) {
            Some((v, r)) => Some((Some(v), r)),
            None => None,
        }
    }
}

/// Parse a string value or JSON null.
fn parse_opt_string(s: &Vec<u8>, i: usize) -> (r: Option<(Option<Vec<u8>>, usize)>)
    requires
        i <= s@.len(),
    ensures
        r is None ==> spec_string_or_null(suffix_of(s@, i as int)) is None,
        r is Some ==> i <= r->Some_0.1 <= s@.len(),
        r is Some ==> spec_string_or_null(suffix_of(s@, i as int)) == Some(
            (opt_bytes_view(r->Some_0.0), suffix_of(s@, r->Some_0.1 as int)),
        ),
{
    let k = skip_ws(s, i);
    let ghost t = suffix_of(s@, k as int);
    proof {
        assert(forall|m: int| 0 <= m < t.len() ==> t[m] == s@[k + m]);
    }
    if s.len() - k >= 4 && s[k] == 110 && s[k + 1] == 117 && s[k + 2] == 108 && s[k + 3] == 108 {
        proof {
            assert(t.skip(4) =~= suffix_of(s@, k + 4));
        }
        return Some((None, k + 4));
    }
    match parse_string_token(s, k) {
        Some((v, j)) => Some((Some(v), j)),
        None => None,
    }
}

/// One member of a link object: `title` or `url`, strings; anything else
/// skipped. Later duplicates overwrite (lenient foreign-format
/// handling).
pub open spec fn link_member_parse(t: Seq<u8>, a0: Option<Seq<u8>>, a1: Option<Seq<u8>>) -> Option<
    ((Option<Seq<u8>>, Option<Seq<u8>>), Seq<u8>),
> {
    match spec_string(t) {
        Some((key, rest)) => {
            let t2 = spec_ws(rest);
            if t2.len() > 0 && t2[0] == 58 {
                let after = t2.drop_first();
                if key == "title".spec_bytes() {
                    match spec_string(spec_ws(after)) {
                        Some((v, r)) => Some(((Some(v), a1), r)),
                        None => None,
                    }
                } else if key == "url".spec_bytes() {
                    match spec_string(spec_ws(after)) {
                        Some((v, r)) => Some(((a0, Some(v)), r)),
                        None => None,
                    }
                } else {
                    match spec_skip_value(after) {
                        Some(r) => Some(((a0, a1), r)),
                        None => None,
                    }
                }
            } else {
                None
            }
        },
        None => None,
    }
}

/// The members of a link object after the opening brace.
pub open spec fn spec_link_members(s: Seq<u8>, a0: Option<Seq<u8>>, a1: Option<Seq<u8>>) -> Option<
    ((Seq<u8>, Seq<u8>), Seq<u8>),
>
    decreases s.len(),
{
    let t = spec_ws(s);
    if t.len() > 0 && t[0] == 125 {
        if a0 is Some && a1 is Some {
            Some(((a0->Some_0, a1->Some_0), t.drop_first()))
        } else {
            None
        }
    } else {
        match link_member_parse(t, a0, a1) {
            Some((acc2, r)) => match member_sep(r) {
                Some((closed, r2)) => if closed {
                    if acc2.0 is Some && acc2.1 is Some {
                        Some(((acc2.0->Some_0, acc2.1->Some_0), r2))
                    } else {
                        None
                    }
                } else {
                    if r2.len() < s.len() {
                        spec_link_members(r2, acc2.0, acc2.1)
                    } else {
                        None
                    }
                },
                None => None,
            },
            None => None,
        }
    }
}

/// A link object: `{ title, url }`.
pub open spec fn spec_link_object(s: Seq<u8>) -> Option<((Seq<u8>, Seq<u8>), Seq<u8>)> {
    let t = spec_ws(s);
    if t.len() > 0 && t[0] == 123 {
        spec_link_members(t.drop_first(), None, None)
    } else {
        None
    }
}

/// The items of a non-empty link array.
pub open spec fn spec_link_items(s: Seq<u8>, acc: Seq<(Seq<u8>, Seq<u8>)>) -> Option<
    (Seq<(Seq<u8>, Seq<u8>)>, Seq<u8>),
>
    decreases s.len(),
{
    match spec_link_object(s) {
        Some((pair, rest)) => {
            let t2 = spec_ws(rest);
            if t2.len() > 0 && t2[0] == 44 {
                if t2.drop_first().len() < s.len() {
                    spec_link_items(t2.drop_first(), acc.push(pair))
                } else {
                    None
                }
            } else if t2.len() > 0 && t2[0] == 93 {
                Some((acc.push(pair), t2.drop_first()))
            } else {
                None
            }
        },
        None => None,
    }
}

/// A link-array value or JSON null.
pub open spec fn spec_links_value(after: Seq<u8>) -> Option<
    (Option<Seq<(Seq<u8>, Seq<u8>)>>, Seq<u8>),
> {
    let t = spec_ws(after);
    if t.len() >= 4 && t[0] == 110 && t[1] == 117 && t[2] == 108 && t[3] == 108 {
        Some((None, t.skip(4)))
    } else if t.len() > 0 && t[0] == 91 {
        let inner = spec_ws(t.drop_first());
        if inner.len() > 0 && inner[0] == 93 {
            Some((Some(Seq::<(Seq<u8>, Seq<u8>)>::empty()), inner.drop_first()))
        } else {
            match spec_link_items(t.drop_first(), Seq::<(Seq<u8>, Seq<u8>)>::empty()) {
                Some((items, rest)) => Some((Some(items), rest)),
                None => None,
            }
        }
    } else {
        None
    }
}

/// Parse the members of one link object.
#[verifier::rlimit(100)]
fn parse_link_object(s: &Vec<u8>, i: usize) -> (r: Option<((Vec<u8>, Vec<u8>), usize)>)
    requires
        i <= s@.len(),
    ensures
        r is None ==> spec_link_object(suffix_of(s@, i as int)) is None,
        r is Some ==> i < r->Some_0.1 <= s@.len(),
        r is Some ==> spec_link_object(suffix_of(s@, i as int)) == Some(
            ((r->Some_0.0.0@, r->Some_0.0.1@), suffix_of(s@, r->Some_0.1 as int)),
        ),
{
    let j0 = skip_ws(s, i);
    proof {
        if (j0 as int) < s@.len() {
            assert(suffix_of(s@, j0 as int)[0] == s@[j0 as int]);
        }
    }
    if j0 >= s.len() || s[j0] != 123 {
        return None;
    }
    proof {
        assert(suffix_of(s@, j0 as int).drop_first() =~= suffix_of(s@, j0 + 1));
    }
    let mut a0: Option<Vec<u8>> = None;
    let mut a1: Option<Vec<u8>> = None;
    let mut j: usize = j0 + 1;
    loop
        invariant
            j0 + 1 <= j <= s@.len(),
            i <= j0 < s@.len(),
            spec_link_members(suffix_of(s@, j0 + 1), None, None) == spec_link_members(
                suffix_of(s@, j as int),
                opt_bytes_view(a0),
                opt_bytes_view(a1),
            ),
            spec_link_object(suffix_of(s@, i as int)) == spec_link_members(
                suffix_of(s@, j0 + 1),
                None,
                None,
            ),
        decreases s@.len() - j,
    {
        let k = skip_ws(s, j);
        proof {
            if (k as int) < s@.len() {
                assert(suffix_of(s@, k as int)[0] == s@[k as int]);
            }
        }
        if k < s.len() && s[k] == 125 {
            proof {
                assert(suffix_of(s@, k as int).drop_first() =~= suffix_of(s@, k + 1));
            }
            match (a0, a1) {
                (Some(t), Some(u)) => {
                    return Some(((t, u), k + 1));
                },
                _ => {
                    return None;
                },
            }
        }
        let ghost t_here = suffix_of(s@, k as int);
        let (key, k2) = match parse_string_token(s, k) {
            Some(p) => p,
            None => {
                return None;
            },
        };
        let k3 = skip_ws(s, k2);
        if k3 >= s.len() {
            return None;
        }
        proof {
            assert(suffix_of(s@, k3 as int)[0] == s@[k3 as int]);
        }
        if s[k3] != 58 {
            return None;
        }
        proof {
            assert(suffix_of(s@, k3 as int).drop_first() =~= suffix_of(s@, k3 + 1));
        }
        let after = k3 + 1;
        let acc2_end: usize;
        if crate::wire::key_is(&key, "title") {
            let k4 = skip_ws(s, after);
            let (v, k5) = match parse_string_token(s, k4) {
                Some(p) => p,
                None => {
                    return None;
                },
            };
            a0 = Some(v);
            acc2_end = k5;
        } else if crate::wire::key_is(&key, "url") {
            let k4 = skip_ws(s, after);
            let (v, k5) = match parse_string_token(s, k4) {
                Some(p) => p,
                None => {
                    return None;
                },
            };
            a1 = Some(v);
            acc2_end = k5;
        } else {
            let k5 = match skip_value(s, after) {
                Some(p) => p,
                None => {
                    return None;
                },
            };
            if k5 <= j {
                proof {
                    assert(false);
                }
                return None;
            }
            acc2_end = k5;
        }
        let (closed, k6) = match read_member_sep(s, acc2_end) {
            Some(p) => p,
            None => {
                return None;
            },
        };
        if closed {
            match (a0, a1) {
                (Some(t), Some(u)) => {
                    return Some(((t, u), k6));
                },
                _ => {
                    return None;
                },
            }
        }
        j = k6;
    }
}

/// View of collected link pairs.
pub open spec fn links_pairs_view(v: Seq<(Vec<u8>, Vec<u8>)>) -> Seq<(Seq<u8>, Seq<u8>)> {
    Seq::new(v.len(), |k: int| (v[k].0@, v[k].1@))
}

/// Parse a link-array value or null.
#[verifier::rlimit(100)]
fn parse_links_value(s: &Vec<u8>, i: usize) -> (r: Option<(Option<Vec<(Vec<u8>, Vec<u8>)>>, usize)>)
    requires
        i <= s@.len(),
    ensures
        r is None ==> spec_links_value(suffix_of(s@, i as int)) is None,
        r is Some ==> i <= r->Some_0.1 <= s@.len(),
        r is Some ==> spec_links_value(suffix_of(s@, i as int)) == Some(
            (
                match r->Some_0.0 {
                    Some(v) => Some(links_pairs_view(v@)),
                    None => None,
                },
                suffix_of(s@, r->Some_0.1 as int),
            ),
        ),
{
    let k = skip_ws(s, i);
    let ghost t = suffix_of(s@, k as int);
    proof {
        assert(forall|m: int| 0 <= m < t.len() ==> t[m] == s@[k + m]);
    }
    if s.len() - k >= 4 && s[k] == 110 && s[k + 1] == 117 && s[k + 2] == 108 && s[k + 3] == 108 {
        proof {
            assert(t.skip(4) =~= suffix_of(s@, k + 4));
        }
        return Some((None, k + 4));
    }
    if k >= s.len() || s[k] != 91 {
        return None;
    }
    proof {
        assert(t.drop_first() =~= suffix_of(s@, k + 1));
    }
    let j0 = skip_ws(s, k + 1);
    proof {
        if (j0 as int) < s@.len() {
            assert(suffix_of(s@, j0 as int)[0] == s@[j0 as int]);
        }
    }
    if j0 < s.len() && s[j0] == 93 {
        proof {
            assert(suffix_of(s@, j0 as int).drop_first() =~= suffix_of(s@, j0 + 1));
        }
        return Some((Some(Vec::new()), j0 + 1));
    }
    let mut acc: Vec<(Vec<u8>, Vec<u8>)> = Vec::new();
    let mut j: usize = k + 1;
    proof {
        assert(links_pairs_view(acc@) =~= Seq::<(Seq<u8>, Seq<u8>)>::empty());
    }
    loop
        invariant
            k + 1 <= j <= s@.len(),
            i <= k < s@.len(),
            spec_link_items(suffix_of(s@, k + 1), Seq::<(Seq<u8>, Seq<u8>)>::empty())
                == spec_link_items(suffix_of(s@, j as int), links_pairs_view(acc@)),
            spec_links_value(suffix_of(s@, i as int)) == (match spec_link_items(
                suffix_of(s@, k + 1),
                Seq::<(Seq<u8>, Seq<u8>)>::empty(),
            ) {
                Some((items, rest)) => Some((Some(items), rest)),
                None => None::<(Option<Seq<(Seq<u8>, Seq<u8>)>>, Seq<u8>)>,
            }),
        decreases s@.len() - j,
    {
        let (pair, k2) = match parse_link_object(s, j) {
            Some(p) => p,
            None => {
                return None;
            },
        };
        let k3 = skip_ws(s, k2);
        if k3 >= s.len() {
            return None;
        }
        proof {
            assert(suffix_of(s@, k3 as int)[0] == s@[k3 as int]);
            assert(suffix_of(s@, k3 as int).drop_first() =~= suffix_of(s@, k3 + 1));
        }
        if s[k3] == 44 {
            let ghost old_acc = links_pairs_view(acc@);
            let ghost p_view = (pair.0@, pair.1@);
            acc.push(pair);
            proof {
                assert(links_pairs_view(acc@) =~= old_acc.push(p_view));
            }
            j = k3 + 1;
        } else if s[k3] == 93 {
            let ghost old_acc = links_pairs_view(acc@);
            let ghost p_view = (pair.0@, pair.1@);
            acc.push(pair);
            proof {
                assert(links_pairs_view(acc@) =~= old_acc.push(p_view));
            }
            return Some((Some(acc), k3 + 1));
        } else {
            return None;
        }
    }
}

/// One member of a profile object. `name`, `bio`, `image`, `status` are
/// strings (the optional three may be null); `links` is an array of link
/// objects or null; anything else is skipped. Later duplicates overwrite
/// (lenient foreign-format handling).
pub open spec fn profile_member_parse(
    t: Seq<u8>,
    name: Option<Seq<u8>>,
    bio: Option<Seq<u8>>,
    image: Option<Seq<u8>>,
    links: Option<Seq<(Seq<u8>, Seq<u8>)>>,
    status: Option<Seq<u8>>,
) -> Option<
    (
        (
            Option<Seq<u8>>,
            Option<Seq<u8>>,
            Option<Seq<u8>>,
            Option<Seq<(Seq<u8>, Seq<u8>)>>,
            Option<Seq<u8>>,
        ),
        Seq<u8>,
    ),
> {
    match spec_string(t) {
        Some((key, rest)) => {
            let t2 = spec_ws(rest);
            if t2.len() > 0 && t2[0] == 58 {
                let after = t2.drop_first();
                if key == "name".spec_bytes() {
                    match spec_string(spec_ws(after)) {
                        Some((v, r)) => Some(((Some(v), bio, image, links, status), r)),
                        None => None,
                    }
                } else if key == "bio".spec_bytes() {
                    match spec_string_or_null(after) {
                        Some((v, r)) => Some(((name, v, image, links, status), r)),
                        None => None,
                    }
                } else if key == "image".spec_bytes() {
                    match spec_string_or_null(after) {
                        Some((v, r)) => Some(((name, bio, v, links, status), r)),
                        None => None,
                    }
                } else if key == "links".spec_bytes() {
                    match spec_links_value(after) {
                        Some((v, r)) => Some(((name, bio, image, v, status), r)),
                        None => None,
                    }
                } else if key == "status".spec_bytes() {
                    match spec_string_or_null(after) {
                        Some((v, r)) => Some(((name, bio, image, links, v), r)),
                        None => None,
                    }
                } else {
                    match spec_skip_value(after) {
                        Some(r) => Some(((name, bio, image, links, status), r)),
                        None => None,
                    }
                }
            } else {
                None
            }
        },
        None => None,
    }
}

/// The members of a profile object after the opening brace. At the close
/// the name must be present.
pub open spec fn spec_profile_members(
    s: Seq<u8>,
    name: Option<Seq<u8>>,
    bio: Option<Seq<u8>>,
    image: Option<Seq<u8>>,
    links: Option<Seq<(Seq<u8>, Seq<u8>)>>,
    status: Option<Seq<u8>>,
) -> Option<
    (
        (
            Seq<u8>,
            Option<Seq<u8>>,
            Option<Seq<u8>>,
            Option<Seq<(Seq<u8>, Seq<u8>)>>,
            Option<Seq<u8>>,
        ),
        Seq<u8>,
    ),
>
    decreases s.len(),
{
    let t = spec_ws(s);
    if t.len() > 0 && t[0] == 125 {
        if name is Some {
            Some(((name->Some_0, bio, image, links, status), t.drop_first()))
        } else {
            None
        }
    } else {
        match profile_member_parse(t, name, bio, image, links, status) {
            Some((acc2, r)) => match member_sep(r) {
                Some((closed, r2)) => if closed {
                    if acc2.0 is Some {
                        Some(((acc2.0->Some_0, acc2.1, acc2.2, acc2.3, acc2.4), r2))
                    } else {
                        None
                    }
                } else {
                    if r2.len() < s.len() {
                        spec_profile_members(r2, acc2.0, acc2.1, acc2.2, acc2.3, acc2.4)
                    } else {
                        None
                    }
                },
                None => None,
            },
            None => None,
        }
    }
}

/// What parsing a profile document yields.
pub open spec fn spec_parse_profile(s: Seq<u8>) -> Option<
    (
        Seq<u8>,
        Option<Seq<u8>>,
        Option<Seq<u8>>,
        Option<Seq<(Seq<u8>, Seq<u8>)>>,
        Option<Seq<u8>>,
    ),
> {
    let t = spec_ws(s);
    if t.len() > 0 && t[0] == 123 {
        match spec_profile_members(t.drop_first(), None, None, None, None, None) {
            Some((vals, rest)) => if spec_ws(rest).len() == 0 {
                Some(vals)
            } else {
                None
            },
            None => None,
        }
    } else {
        None
    }
}

/// Parse one member of a profile object.
#[verifier::rlimit(100)]
fn parse_profile_member(
    s: &Vec<u8>,
    j: usize,
    name: Option<Vec<u8>>,
    bio: Option<Vec<u8>>,
    image: Option<Vec<u8>>,
    links: Option<Vec<(Vec<u8>, Vec<u8>)>>,
    status: Option<Vec<u8>>,
) -> (r: Option<
    (
        (
            Option<Vec<u8>>,
            Option<Vec<u8>>,
            Option<Vec<u8>>,
            Option<Vec<(Vec<u8>, Vec<u8>)>>,
            Option<Vec<u8>>,
        ),
        usize,
    ),
>)
    requires
        j <= s@.len(),
    ensures
        r is None ==> profile_member_parse(
            suffix_of(s@, j as int),
            opt_bytes_view(name),
            opt_bytes_view(bio),
            opt_bytes_view(image),
            opt_links_view(links),
            opt_bytes_view(status),
        ) is None,
        r is Some ==> j < r->Some_0.1 <= s@.len(),
        r is Some ==> profile_member_parse(
            suffix_of(s@, j as int),
            opt_bytes_view(name),
            opt_bytes_view(bio),
            opt_bytes_view(image),
            opt_links_view(links),
            opt_bytes_view(status),
        ) == Some(
            (
                (
                    opt_bytes_view(r->Some_0.0.0),
                    opt_bytes_view(r->Some_0.0.1),
                    opt_bytes_view(r->Some_0.0.2),
                    opt_links_view(r->Some_0.0.3),
                    opt_bytes_view(r->Some_0.0.4),
                ),
                suffix_of(s@, r->Some_0.1 as int),
            ),
        ),
{
    let (key, k2) = match parse_string_token(s, j) {
        Some(p) => p,
        None => {
            return None;
        },
    };
    let k3 = skip_ws(s, k2);
    if k3 >= s.len() {
        return None;
    }
    proof {
        assert(suffix_of(s@, k3 as int)[0] == s@[k3 as int]);
    }
    if s[k3] != 58 {
        return None;
    }
    proof {
        assert(suffix_of(s@, k3 as int).drop_first() =~= suffix_of(s@, k3 + 1));
    }
    let after = k3 + 1;
    if crate::wire::key_is(&key, "name") {
        let k4 = skip_ws(s, after);
        let (v, k5) = match parse_string_token(s, k4) {
            Some(p) => p,
            None => {
                return None;
            },
        };
        Some(((Some(v), bio, image, links, status), k5))
    } else if crate::wire::key_is(&key, "bio") {
        let (v, k5) = match parse_opt_string(s, after) {
            Some(p) => p,
            None => {
                return None;
            },
        };
        if k5 <= j {
            proof {
                assert(false);
            }
            return None;
        }
        Some(((name, v, image, links, status), k5))
    } else if crate::wire::key_is(&key, "image") {
        let (v, k5) = match parse_opt_string(s, after) {
            Some(p) => p,
            None => {
                return None;
            },
        };
        if k5 <= j {
            proof {
                assert(false);
            }
            return None;
        }
        Some(((name, bio, v, links, status), k5))
    } else if crate::wire::key_is(&key, "links") {
        let (v, k5) = match parse_links_value(s, after) {
            Some(p) => p,
            None => {
                return None;
            },
        };
        if k5 <= j {
            proof {
                assert(false);
            }
            return None;
        }
        Some(((name, bio, image, v, status), k5))
    } else if crate::wire::key_is(&key, "status") {
        let (v, k5) = match parse_opt_string(s, after) {
            Some(p) => p,
            None => {
                return None;
            },
        };
        if k5 <= j {
            proof {
                assert(false);
            }
            return None;
        }
        Some(((name, bio, image, links, v), k5))
    } else {
        let k5 = match skip_value(s, after) {
            Some(p) => p,
            None => {
                return None;
            },
        };
        if k5 <= j {
            proof {
                assert(false);
            }
            return None;
        }
        Some(((name, bio, image, links, status), k5))
    }
}

/// View of optional collected link pairs.
pub open spec fn opt_links_view(o: Option<Vec<(Vec<u8>, Vec<u8>)>>) -> Option<
    Seq<(Seq<u8>, Seq<u8>)>,
> {
    match o {
        Some(v) => Some(links_pairs_view(v@)),
        None => None,
    }
}

/// Parse a profile document into its raw fields.
#[verifier::rlimit(100)]
pub fn parse_profile_fields(s: &Vec<u8>) -> (r: Option<
    (Vec<u8>, Option<Vec<u8>>, Option<Vec<u8>>, Option<Vec<(Vec<u8>, Vec<u8>)>>, Option<Vec<u8>>),
>)
    ensures
        r is Some <==> spec_parse_profile(s@) is Some,
        r is Some ==> Some(
            (
                r->Some_0.0@,
                opt_bytes_view(r->Some_0.1),
                opt_bytes_view(r->Some_0.2),
                opt_links_view(r->Some_0.3),
                opt_bytes_view(r->Some_0.4),
            ),
        ) == spec_parse_profile(s@),
{
    let j0 = skip_ws(s, 0);
    proof {
        assert(suffix_of(s@, 0) =~= s@);
        if (j0 as int) < s@.len() {
            assert(suffix_of(s@, j0 as int)[0] == s@[j0 as int]);
        }
    }
    if j0 >= s.len() || s[j0] != 123 {
        return None;
    }
    proof {
        assert(suffix_of(s@, j0 as int).drop_first() =~= suffix_of(s@, j0 + 1));
    }
    let mut name: Option<Vec<u8>> = None;
    let mut bio: Option<Vec<u8>> = None;
    let mut image: Option<Vec<u8>> = None;
    let mut links: Option<Vec<(Vec<u8>, Vec<u8>)>> = None;
    let mut status: Option<Vec<u8>> = None;
    let mut j: usize = j0 + 1;
    loop
        invariant
            j0 + 1 <= j <= s@.len(),
            spec_profile_members(suffix_of(s@, j0 + 1), None, None, None, None, None)
                == spec_profile_members(
                suffix_of(s@, j as int),
                opt_bytes_view(name),
                opt_bytes_view(bio),
                opt_bytes_view(image),
                opt_links_view(links),
                opt_bytes_view(status),
            ),
            spec_parse_profile(s@) == (match spec_profile_members(
                suffix_of(s@, j0 + 1),
                None,
                None,
                None,
                None,
                None,
            ) {
                Some((vals, rest)) => if spec_ws(rest).len() == 0 {
                    Some(vals)
                } else {
                    None
                },
                None => None,
            }),
        decreases s@.len() - j,
    {
        let k = skip_ws(s, j);
        proof {
            if (k as int) < s@.len() {
                assert(suffix_of(s@, k as int)[0] == s@[k as int]);
            }
        }
        if k < s.len() && s[k] == 125 {
            proof {
                assert(suffix_of(s@, k as int).drop_first() =~= suffix_of(s@, k + 1));
            }
            match name {
                Some(n) => {
                    let k2 = skip_ws(s, k + 1);
                    if k2 < s.len() {
                        return None;
                    }
                    return Some((n, bio, image, links, status));
                },
                None => {
                    return None;
                },
            }
        }
        let (acc2, vend) = match parse_profile_member(s, k, name, bio, image, links, status) {
            Some(p) => p,
            None => {
                return None;
            },
        };
        name = acc2.0;
        bio = acc2.1;
        image = acc2.2;
        links = acc2.3;
        status = acc2.4;
        let (closed, k6) = match read_member_sep(s, vend) {
            Some(p) => p,
            None => {
                return None;
            },
        };
        if closed {
            match name {
                Some(n) => {
                    let k7 = skip_ws(s, k6);
                    if k7 < s.len() {
                        return None;
                    }
                    return Some((n, bio, image, links, status));
                },
                None => {
                    return None;
                },
            }
        }
        j = k6;
    }
}

/// The display name of a profile document, when the document parses and
/// its name is valid UTF-8.
pub open spec fn profile_name_of(b: Seq<u8>) -> Option<Seq<char>> {
    match spec_parse_profile(b) {
        Some((nm, bio, image, links, status)) => if vstd::utf8::valid_utf8(nm) {
            Some(vstd::utf8::decode_utf8(nm))
        } else {
            None
        },
        None => None,
    }
}

/// Extract the display name from a profile document body; nothing when
/// the body does not parse as a profile.
pub fn parse_profile_name(body: &str) -> (r: Option<String>)
    ensures
        r is Some <==> profile_name_of(body.spec_bytes()) is Some,
        r is Some ==> Some(r->Some_0@) == profile_name_of(body.spec_bytes()),
{
    let bytes = str_to_bytes(body);
    match parse_profile_fields(&bytes) {
        Some((nm, _bio, _image, _links, _status)) => string_from_utf8(nm),
        None => None,
    }
}

/// Position just after the last slash byte, or 0 when there is none.
pub open spec fn after_last_slash(b: Seq<u8>) -> int
    decreases b.len(),
{
    if b.len() == 0 {
        0
    } else if b[b.len() - 1] == 47 {
        b.len() as int
    } else {
        after_last_slash(b.take(b.len() - 1))
    }
}

/// The trailing path segment: everything after the last slash (the whole
/// string when there is no slash).
pub open spec fn last_segment_of(b: Seq<u8>) -> Seq<u8> {
    b.subrange(after_last_slash(b), b.len() as int)
}

pub proof fn lemma_after_last_slash_bounds(b: Seq<u8>)
    ensures
        0 <= after_last_slash(b) <= b.len(),
        forall|k: int| after_last_slash(b) <= k < b.len() ==> b[k] != 47,
        after_last_slash(b) > 0 ==> b[after_last_slash(b) - 1] == 47,
    decreases b.len(),
{
    if b.len() > 0 && b[b.len() - 1] != 47 {
        lemma_after_last_slash_bounds(b.take(b.len() - 1));
        assert forall|k: int| after_last_slash(b) <= k < b.len() implies b[k] != 47 by {
            if k < b.len() - 1 {
                assert(b.take(b.len() - 1)[k] == b[k]);
            }
        }
        if after_last_slash(b) > 0 {
            assert(b.take(b.len() - 1)[after_last_slash(b) - 1] == b[after_last_slash(b) - 1]);
        }
    }
}

/// Extract the account identifier from a follow URL: its trailing path
/// segment. Yields the empty string when the segment is not valid UTF-8.
pub fn extract_pubky_from_follow_url(url: &str) -> (r: String)
    ensures
        vstd::utf8::valid_utf8(last_segment_of(url.spec_bytes())) ==> r@ == vstd::utf8::decode_utf8(
            last_segment_of(url.spec_bytes()),
        ),
        !vstd::utf8::valid_utf8(last_segment_of(url.spec_bytes())) ==> r@.len() == 0,
{
    let bytes = str_to_bytes(url);
    let ghost b = url.spec_bytes();
    proof {
        lemma_after_last_slash_bounds(b);
    }
    let mut start: usize = bytes.len();
    while start > 0 && bytes[start - 1] != 47
        invariant
            0 <= start <= bytes@.len(),
            bytes@ == b,
            forall|k: int| start <= k < b.len() ==> b[k] != 47,
            after_last_slash(b) <= start,
        decreases start,
    {
        proof {
            lemma_after_last_slash_prefix(b, start - 1);
        }
        start = start - 1;
    }
    proof {
        if start > 0 {
            assert(b[start - 1] == 47);
        }
        assert(after_last_slash(b) == start as int) by {
            lemma_after_last_slash_bounds(b);
            if after_last_slash(b) < start as int {
                assert(b[start - 1] != 47);
            }
        }
    }
    let mut seg: Vec<u8> = Vec::new();
    let mut k: usize = start;
    while k < bytes.len()
        invariant
            start <= k <= bytes@.len(),
            bytes@ == b,
            seg@ == b.subrange(start as int, k as int),
        decreases bytes@.len() - k,
    {
        seg.push(bytes[k]);
        k = k + 1;
    }
    proof {
        assert(seg@ =~= last_segment_of(b));
    }
    match string_from_utf8(seg) {
        Some(s) => s,
        None => String::new(),
    }
}

/// If the bytes from `p` on hold no slash and `b[p] != 47`... helper: the
/// last-slash position lies at or before `p` when no slash follows `p`.
proof fn lemma_after_last_slash_prefix(b: Seq<u8>, p: int)
    requires
        0 <= p < b.len(),
        b[p] != 47,
        forall|k: int| p < k < b.len() ==> b[k] != 47,
    ensures
        after_last_slash(b) <= p,
    decreases b.len(),
{
    if p == b.len() - 1 {
        lemma_after_last_slash_bounds(b.take(b.len() - 1));
        assert(after_last_slash(b) == after_last_slash(b.take(b.len() - 1)));
    } else {
        assert(b[b.len() - 1] != 47);
        assert forall|k: int| p < k < b.len() - 1 implies #[trigger] b.take(b.len() - 1)[k]
            != 47 by {
            assert(b.take(b.len() - 1)[k] == b[k]);
        }
        assert(b.take(b.len() - 1)[p] == b[p]);
        lemma_after_last_slash_prefix(b.take(b.len() - 1), p);
    }
}

/// The non-empty, UTF-8-decodable lines of a follow-list body, in order.
/// Lines are split on the line-feed byte; a trailing carriage return is
/// removed.
pub open spec fn follow_urls_of(b: Seq<u8>) -> Seq<Seq<char>>
    decreases b.len(),
{
    if b.len() == 0 {
        Seq::<Seq<char>>::empty()
    } else {
        let n = first_nl(b);
        let line = trim_cr(b.take(n));
        let rest = if 0 <= n && n < b.len() {
            follow_urls_of(b.subrange(n + 1, b.len() as int))
        } else {
            Seq::<Seq<char>>::empty()
        };
        if line.len() > 0 && vstd::utf8::valid_utf8(line) {
            seq![vstd::utf8::decode_utf8(line)] + rest
        } else {
            rest
        }
    }
}

/// Position of the first line-feed byte, or the length when none.
pub open spec fn first_nl(b: Seq<u8>) -> int
    decreases b.len(),
{
    if b.len() == 0 {
        0
    } else if b[0] == 10 {
        0
    } else {
        1 + first_nl(b.drop_first())
    }
}

/// A line without its trailing carriage return, if it has one.
pub open spec fn trim_cr(l: Seq<u8>) -> Seq<u8> {
    if l.len() > 0 && l[l.len() - 1] == 13 {
        l.take(l.len() - 1)
    } else {
        l
    }
}

pub proof fn lemma_first_nl_exact(b: Seq<u8>, k: int)
    requires
        0 <= k <= b.len(),
        forall|m: int| 0 <= m < k ==> b[m] != 10,
        k == b.len() || b[k] == 10,
    ensures
        first_nl(b) == k,
    decreases b.len(),
{
    if k > 0 {
        assert(b[0] != 10);
        assert forall|m: int| 0 <= m < k - 1 implies b.drop_first()[m] != 10 by {
            assert(b.drop_first()[m] == b[m + 1]);
        }
        if k - 1 < b.drop_first().len() {
            assert(b.drop_first()[k - 1] == b[k]);
        }
        lemma_first_nl_exact(b.drop_first(), k - 1);
    }
}

/// View of a vector of strings.
pub open spec fn strings_view(v: Seq<String>) -> Seq<Seq<char>> {
    Seq::new(v.len(), |k: int| v[k]@)
}

/// Split a follow-list body into its non-empty lines, each a follow URL.
#[verifier::rlimit(100)]
pub fn parse_follow_list(body: &str) -> (r: Vec<String>)
    ensures
        strings_view(r@) == follow_urls_of(body.spec_bytes()),
{
    let bytes = str_to_bytes(body);
    let ghost b = body.spec_bytes();
    let mut out: Vec<String> = Vec::new();
    let mut i: usize = 0;
    proof {
        assert(strings_view(out@) =~= Seq::<Seq<char>>::empty());
        assert(suffix_of(b, 0) =~= b);
    }
    while i < bytes.len()
        invariant
            0 <= i <= bytes@.len(),
            bytes@ == b,
            follow_urls_of(b) == strings_view(out@) + follow_urls_of(suffix_of(b, i as int)),
        decreases bytes@.len() - i,
    {
        let ghost cur = suffix_of(b, i as int);
        proof {
            assert(forall|m: int| 0 <= m < cur.len() ==> cur[m] == b[i + m]);
        }
        let mut j: usize = i;
        while j < bytes.len() && bytes[j] != 10
            invariant
                i <= j <= bytes@.len(),
                bytes@ == b,
                forall|m: int| i <= m < j ==> b[m] != 10,
            decreases bytes@.len() - j,
        {
            j = j + 1;
        }
        proof {
            assert forall|m: int| 0 <= m < j - i implies cur[m] != 10 by {
                assert(cur[m] == b[i + m]);
            }
            if (j as int) < b.len() {
                assert(cur[j - i] == b[j as int]);
            }
            lemma_first_nl_exact(cur, j - i);
        }
        let mut end: usize = j;
        if end > i && bytes[end - 1] == 13 {
            end = end - 1;
        }
        proof {
            assert(cur.take(j - i) =~= b.subrange(i as int, j as int));
            assert(trim_cr(cur.take(j - i)) =~= b.subrange(i as int, end as int));
        }
        let mut line: Vec<u8> = Vec::new();
        let mut k: usize = i;
        while k < end
            invariant
                i <= k <= end <= bytes@.len(),
                bytes@ == b,
                line@ == b.subrange(i as int, k as int),
            decreases end - k,
        {
            line.push(bytes[k]);
            k = k + 1;
        }
        proof {
            assert(line@ =~= trim_cr(cur.take(j - i)));
        }
        let ghost line_view = line@;
        let ghost out_old = strings_view(out@);
        if line.len() > 0 {
            match string_from_utf8(line) {
                Some(sx) => {
                    out.push(sx);
                    proof {
                        assert(strings_view(out@) =~= out_old + seq![
                            vstd::utf8::decode_utf8(line_view),
                        ]);
                    }
                },
                None => {
                },
            }
        }
        let next: usize = if j < bytes.len() {
            j + 1
        } else {
            j
        };
        proof {
            if (j as int) < b.len() {
                assert(cur.subrange(j - i + 1, cur.len() as int) =~= suffix_of(b, j + 1));
            } else {
                assert(follow_urls_of(suffix_of(b, next as int)) =~= Seq::<Seq<char>>::empty());
            }
            assert(follow_urls_of(b) =~= strings_view(out@) + follow_urls_of(
                suffix_of(b, next as int),
            ));
        }
        i = next;
        proof {
            assert(i > 0);
        }
    }
    proof {
        assert(follow_urls_of(suffix_of(b, i as int)) =~= Seq::<Seq<char>>::empty());
        assert(strings_view(out@) =~= follow_urls_of(b));
    }
    out
}

/// All strings of parsed raw profile fields are valid UTF-8.
pub open spec fn profile_fields_utf8_ok(
    p: (
        Seq<u8>,
        Option<Seq<u8>>,
        Option<Seq<u8>>,
        Option<Seq<(Seq<u8>, Seq<u8>)>>,
        Option<Seq<u8>>,
    ),
) -> bool {
    &&& vstd::utf8::valid_utf8(p.0)
    &&& (p.1 is Some ==> vstd::utf8::valid_utf8(p.1->Some_0))
    &&& (p.2 is Some ==> vstd::utf8::valid_utf8(p.2->Some_0))
    &&& (p.3 is Some ==> forall|k: int|
        0 <= k < p.3->Some_0.len() ==> vstd::utf8::valid_utf8((#[trigger] p.3->Some_0[k]).0)
            && vstd::utf8::valid_utf8(p.3->Some_0[k].1))
    &&& (p.4 is Some ==> vstd::utf8::valid_utf8(p.4->Some_0))
}

/// View of parsed link structs.
pub open spec fn links_struct_view(v: Seq<Link>) -> Seq<(Seq<char>, Seq<char>)> {
    Seq::new(v.len(), |k: int| (v[k].title@, v[k].url@))
}

/// Decode an optional raw string field; fails exactly when the bytes
/// are present and not valid UTF-8.
fn opt_field_to_string(o: Option<Vec<u8>>) -> (r: Option<Option<String>>)
    ensures
        r is Some <==> (match opt_bytes_view(o) {
            Some(b) => vstd::utf8::valid_utf8(b),
            None => true,
        }),
        r is Some ==> opt_string_view(r->Some_0) == (match opt_bytes_view(o) {
            Some(b) => Some(vstd::utf8::decode_utf8(b)),
            None => None,
        }),
{
    match o {
        Some(b) => match string_from_utf8(b) {
            Some(s) => Some(Some(s)),
            None => None,
        },
        None => Some(None),
    }
}

/// Parse a profile document into the profile structure. Succeeds exactly
/// when the document parses and every string field decodes as UTF-8.
/// Build the profile structure from parsed raw fields; fails exactly
/// when some field is not valid UTF-8.
fn build_profile(
    name_raw: Vec<u8>,
    bio_raw: Option<Vec<u8>>,
    image_raw: Option<Vec<u8>>,
    links_raw: Option<Vec<(Vec<u8>, Vec<u8>)>>,
    status_raw: Option<Vec<u8>>,
) -> (r: Option<PubkyProfile>)
    ensures
        r is Some <==> profile_fields_utf8_ok(
            (
                name_raw@,
                opt_bytes_view(bio_raw),
                opt_bytes_view(image_raw),
                opt_links_view(links_raw),
                opt_bytes_view(status_raw),
            ),
        ),
        r is Some ==> r->Some_0.name@ == vstd::utf8::decode_utf8(name_raw@),
        r is Some ==> opt_string_view(r->Some_0.bio) == (match opt_bytes_view(bio_raw) {
            Some(b) => Some(vstd::utf8::decode_utf8(b)),
            None => None,
        }),
        r is Some ==> opt_string_view(r->Some_0.image) == (match opt_bytes_view(image_raw) {
            Some(b) => Some(vstd::utf8::decode_utf8(b)),
            None => None,
        }),
        r is Some ==> opt_string_view(r->Some_0.status) == (match opt_bytes_view(status_raw) {
            Some(b) => Some(vstd::utf8::decode_utf8(b)),
            None => None,
        }),
        r is Some ==> (r->Some_0.links is Some <==> opt_links_view(links_raw) is Some),
        r is Some && r->Some_0.links is Some ==> links_struct_view(r->Some_0.links->Some_0@)
            == Seq::new(
            opt_links_view(links_raw)->Some_0.len(),
            |k: int|
                (
                    vstd::utf8::decode_utf8(opt_links_view(links_raw)->Some_0[k].0),
                    vstd::utf8::decode_utf8(opt_links_view(links_raw)->Some_0[k].1),
                ),
        ),
{
    let name = match string_from_utf8(name_raw) {
        Some(s) => s,
        None => {
            return None;
        },
    };
    let bio = match opt_field_to_string(bio_raw) {
        Some(v) => v,
        None => {
            return None;
        },
    };
    let image = match opt_field_to_string(image_raw) {
        Some(v) => v,
        None => {
            return None;
        },
    };
    let status = match opt_field_to_string(status_raw) {
        Some(v) => v,
        None => {
            return None;
        },
    };
    let links = match links_raw {
        Some(pairs) => {
            let ghost lv = links_pairs_view(pairs@);
            match convert_links(pairs) {
                Some(out) => Some(out),
                None => {
                    proof {
                        assert(opt_links_view(links_raw) == Some(lv));
                        assert(exists|m: int|
                            0 <= m < lv.len() && !(vstd::utf8::valid_utf8((#[trigger] lv[m]).0)
                                && vstd::utf8::valid_utf8(lv[m].1)));
                        let m0 = choose|m: int|
                            0 <= m < lv.len() && !(vstd::utf8::valid_utf8((#[trigger] lv[m]).0)
                                && vstd::utf8::valid_utf8(lv[m].1));
                        let p3 = opt_links_view(links_raw);
                        assert(p3->Some_0 == lv);
                        assert(p3->Some_0[m0] == lv[m0]);
                        assert(!(vstd::utf8::valid_utf8((p3->Some_0[m0]).0)
                            && vstd::utf8::valid_utf8(p3->Some_0[m0].1)));
                    }
                    return None;
                },
            }
        },
        None => None,
    };
    Some(PubkyProfile { name, bio, image, links, status })
}

/// Parse a profile document into the profile structure. Succeeds exactly
/// when the document parses and every string field decodes as UTF-8.
#[verifier::rlimit(100)]
pub fn parse_pubky_profile(body: &str) -> (r: Option<PubkyProfile>)
    ensures
        r is Some <==> (spec_parse_profile(body.spec_bytes()) is Some && profile_fields_utf8_ok(
            spec_parse_profile(body.spec_bytes())->Some_0,
        )),
        r is Some ==> r->Some_0.name@ == vstd::utf8::decode_utf8(
            spec_parse_profile(body.spec_bytes())->Some_0.0,
        ),
        r is Some ==> opt_string_view(r->Some_0.bio) == (match spec_parse_profile(
            body.spec_bytes(),
        )->Some_0.1 {
            Some(b) => Some(vstd::utf8::decode_utf8(b)),
            None => None,
        }),
        r is Some ==> opt_string_view(r->Some_0.image) == (match spec_parse_profile(
            body.spec_bytes(),
        )->Some_0.2 {
            Some(b) => Some(vstd::utf8::decode_utf8(b)),
            None => None,
        }),
        r is Some ==> opt_string_view(r->Some_0.status) == (match spec_parse_profile(
            body.spec_bytes(),
        )->Some_0.4 {
            Some(b) => Some(vstd::utf8::decode_utf8(b)),
            None => None,
        }),
        r is Some ==> (r->Some_0.links is Some <==> spec_parse_profile(
            body.spec_bytes(),
        )->Some_0.3 is Some),
        r is Some && r->Some_0.links is Some ==> links_struct_view(r->Some_0.links->Some_0@)
            == Seq::new(
            spec_parse_profile(body.spec_bytes())->Some_0.3->Some_0.len(),
            |k: int|
                (
                    vstd::utf8::decode_utf8(
                        spec_parse_profile(body.spec_bytes())->Some_0.3->Some_0[k].0,
                    ),
                    vstd::utf8::decode_utf8(
                        spec_parse_profile(body.spec_bytes())->Some_0.3->Some_0[k].1,
                    ),
                ),
        ),
{
    let bytes = str_to_bytes(body);
    match parse_profile_fields(&bytes) {
        Some((name_raw, bio_raw, image_raw, links_raw, status_raw)) => build_profile(
            name_raw,
            bio_raw,
            image_raw,
            links_raw,
            status_raw,
        ),
        None => None,
    }
}

/// Convert raw link byte pairs into link structs; fails exactly when
/// some pair is not valid UTF-8.
fn convert_links(pairs: Vec<(Vec<u8>, Vec<u8>)>) -> (r: Option<Vec<Link>>)
    ensures
        r is Some <==> (forall|m: int|
            0 <= m < links_pairs_view(pairs@).len() ==> vstd::utf8::valid_utf8(
                (#[trigger] links_pairs_view(pairs@)[m]).0,
            ) && vstd::utf8::valid_utf8(links_pairs_view(pairs@)[m].1)),
        r is Some ==> links_struct_view(r->Some_0@) == Seq::new(
            links_pairs_view(pairs@).len(),
            |m: int|
                (
                    vstd::utf8::decode_utf8(links_pairs_view(pairs@)[m].0),
                    vstd::utf8::decode_utf8(links_pairs_view(pairs@)[m].1),
                ),
        ),
{
    let ghost pairs_view = links_pairs_view(pairs@);
    let mut out: Vec<Link> = Vec::new();
    let mut k: usize = 0;
    while k < pairs.len()
        invariant
            0 <= k <= pairs@.len(),
            pairs_view == links_pairs_view(pairs@),
            out@.len() == k,
            forall|m: int|
                0 <= m < k ==> vstd::utf8::valid_utf8((#[trigger] pairs_view[m]).0)
                    && vstd::utf8::valid_utf8(pairs_view[m].1),
            forall|m: int|
                0 <= m < k ==> (#[trigger] out@[m].title)@ == vstd::utf8::decode_utf8(
                    pairs_view[m].0,
                ) && out@[m].url@ == vstd::utf8::decode_utf8(pairs_view[m].1),
        decreases pairs@.len() - k,
    {
        let pair = &pairs[k];
        proof {
            assert(pairs_view[k as int] == (pairs@[k as int].0@, pairs@[k as int].1@));
        }
        let title = match string_from_utf8(crate::conversation::clone_bytes(&pair.0)) {
            Some(s) => s,
            None => {
                proof {
                    assert(!vstd::utf8::valid_utf8(pairs_view[k as int].0));
                }
                return None;
            },
        };
        let url = match string_from_utf8(crate::conversation::clone_bytes(&pair.1)) {
            Some(s) => s,
            None => {
                proof {
                    assert(!vstd::utf8::valid_utf8(pairs_view[k as int].1));
                }
                return None;
            },
        };
        out.push(Link { title, url });
        k = k + 1;
    }
    proof {
        assert(links_struct_view(out@) =~= Seq::new(
            pairs_view.len(),
            |m: int|
                (
                    vstd::utf8::decode_utf8(pairs_view[m].0),
                    vstd::utf8::decode_utf8(pairs_view[m].1),
                ),
        ));
    }
    Some(out)
}

/// The URI of an account's public profile object.
pub open spec fn profile_uri_of(pubky: Seq<char>) -> Seq<char> {
    "pubky://"@ + pubky + "/pub/pubky.app/profile.json"@
}

/// The listing prefix of an account's follow list.
pub open spec fn follows_uri_of(pubky: Seq<char>) -> Seq<char> {
    "pubky://"@ + pubky + "/pub/pubky.app/follows/"@
}

/// Build the URI of an account's public profile object.
pub fn profile_uri(pubky: &str) -> (r: String)
    ensures
        r@ == profile_uri_of(pubky@),
{
    let mut uri = String::from_str("pubky://");
    uri.append(pubky);
    uri.append("/pub/pubky.app/profile.json");
    proof {
        assert(uri@ =~= profile_uri_of(pubky@));
    }
    uri
}

/// Build the listing prefix of an account's follow list.
pub fn follows_uri(pubky: &str) -> (r: String)
    ensures
        r@ == follows_uri_of(pubky@),
{
    let mut uri = String::from_str("pubky://");
    uri.append(pubky);
    uri.append("/pub/pubky.app/follows/");
    proof {
        assert(uri@ =~= follows_uri_of(pubky@));
    }
    uri
}

/// The resolved name for a fetched profile body, if any: absent body or
/// unparseable profile yield no name, never an error.
pub open spec fn entry_name_of(body: Option<String>) -> Option<Seq<char>> {
    match body {
        Some(b) => profile_name_of(vstd::utf8::encode_utf8(b@)),
        None => None,
    }
}

/// View of an optional string.
pub open spec fn opt_string_view(o: Option<String>) -> Option<Seq<char>> {
    match o {
        Some(s) => Some(s@),
        None => None,
    }
}

/// Resolve one followed account: the identifier is the follow URL's
/// trailing segment; the name comes from the profile body when present
/// and parseable, else none. A missing profile is not an error.
pub fn resolve_profile(follow_url: &str, profile_body: &Option<String>) -> (r: FollowedUser)
    ensures
        vstd::utf8::valid_utf8(last_segment_of(follow_url.spec_bytes())) ==> r.pubky@
            == vstd::utf8::decode_utf8(last_segment_of(follow_url.spec_bytes())),
        opt_string_view(r.name) == entry_name_of(*profile_body),
{
    let pubky = extract_pubky_from_follow_url(follow_url);
    let name = match profile_body {
        Some(b) => parse_profile_name(b.as_str()),
        None => None,
    };
    FollowedUser { name, pubky }
}

/// Resolve all followed accounts against their fetched profile bodies,
/// preserving input order. Every followed account appears in the result,
/// with no name when its profile was missing or unparseable.
pub fn resolve_profiles(follow_urls: &Vec<String>, bodies: &Vec<Option<String>>) -> (r: Vec<
    FollowedUser,
>)
    requires
        follow_urls@.len() == bodies@.len(),
    ensures
        r@.len() == follow_urls@.len(),
        forall|k: int|
            0 <= k < r@.len() ==> opt_string_view(#[trigger] r@[k].name) == entry_name_of(
                bodies@[k],
            ),
        forall|k: int|
            0 <= k < r@.len() ==> (vstd::utf8::valid_utf8(
                last_segment_of(vstd::utf8::encode_utf8(follow_urls@[k]@)),
            ) ==> (#[trigger] r@[k].pubky)@ == vstd::utf8::decode_utf8(
                last_segment_of(vstd::utf8::encode_utf8(follow_urls@[k]@)),
            )),
{
    let mut out: Vec<FollowedUser> = Vec::new();
    let mut k: usize = 0;
    while k < follow_urls.len()
        invariant
            0 <= k <= follow_urls@.len(),
            follow_urls@.len() == bodies@.len(),
            out@.len() == k,
            forall|m: int|
                0 <= m < k ==> opt_string_view(#[trigger] out@[m].name) == entry_name_of(
                    bodies@[m],
                ),
            forall|m: int|
                0 <= m < k ==> (vstd::utf8::valid_utf8(
                    last_segment_of(vstd::utf8::encode_utf8(follow_urls@[m]@)),
                ) ==> (#[trigger] out@[m].pubky)@ == vstd::utf8::decode_utf8(
                    last_segment_of(vstd::utf8::encode_utf8(follow_urls@[m]@)),
                )),
        decreases follow_urls@.len() - k,
    {
        let entry = resolve_profile(follow_urls[k].as_str(), &bodies[k]);
        out.push(entry);
        k = k + 1;
    }
    out
}

} // verus!
