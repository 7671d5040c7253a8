//! Locating the assistant binary.
//!
//! Which candidate paths exist on disk is probed by the caller; the
//! preference order and the selection among the probed candidates are
//! decided and verified here.

use vstd::prelude::*;
use vstd::string::StringExecFns;
use crate::ident::spec_contains_string;
use crate::strutil::str_views;

verus! {

/// Manages access to the host's the assistant installation.
pub struct AssistantCliManager;

/// The characters of an optional string.
pub open spec fn opt_view(o: Option<String>) -> Option<Seq<char>> {
    match o {
        Some(s) => Some(s@),
        None => None,
    }
}

/// The candidate locations for the binary, most preferred first: a search
/// hit on the runtime path, the two package-manager locations, and the two
/// per-user locations under the home directory.
pub open spec fn spec_assistant_candidates(
    path_hit: Option<Seq<char>>,
    home: Option<Seq<char>>,
) -> Seq<Seq<char>> {
    (match path_hit {
        Some(p) => seq![p],
        None => Seq::empty(),
    }) + seq!["/opt/homebrew/bin/assistant"@, "/usr/local/bin/assistant"@] + (match home {
        Some(h) => seq![h + "/.local/bin/assistant"@, h + "/.assistant/local/assistant"@],
        None => Seq::empty(),
    })
}

/// The first candidate that exists, if any: `existing` holds the candidate
/// paths the caller found on disk.
pub open spec fn spec_first_existing(cands: Seq<Seq<char>>, existing: Seq<String>) -> Option<
    Seq<char>,
>
    decreases cands.len(),
{
    if cands.len() == 0 {
        None
    } else if spec_contains_string(existing, cands[0]) {
        Some(cands[0])
    } else {
        spec_first_existing(cands.drop_first(), existing)
    }
}

impl AssistantCliManager {
    /// The candidate locations for the binary, most preferred first.
    /// `path_hit` is the caller's search-path lookup result and `home` the
    /// caller's home directory, both probed outside this crate.
    pub fn assistant_candidates(path_hit: &Option<String>, home: &Option<String>) -> (r: Vec<String>)
        ensures
            str_views(r@) == spec_assistant_candidates(
                opt_view(*path_hit),
                opt_view(*home),
            ),
    {
        let ghost ph: Option<Seq<char>> = opt_view(*path_hit);
        let ghost hh: Option<Seq<char>> = opt_view(*home);
        let mut r: Vec<String> = Vec::new();
        match path_hit {
            Some(p) => r.push(p.clone()),
            None => {},
        }
        r.push(String::from_str("/opt/homebrew/bin/assistant"));
        r.push(String::from_str("/usr/local/bin/assistant"));
        match home {
            Some(h) => {
                r.push(h.clone().concat("/.local/bin/assistant"));
                r.push(h.clone().concat("/.assistant/local/assistant"));
            },
            None => {},
        }
        proof {
            assert(str_views(r@) =~= spec_assistant_candidates(ph, hh));
        }
        r
    }

    /// The preferred existing location of the assistant binary, given the
    /// caller's path lookup, home directory and the set of candidate paths
    /// it found to exist on disk.
    pub fn find_assistant_binary_public(
        path_hit: &Option<String>,
        home: &Option<String>,
        existing: &Vec<String>,
    ) -> (r: Option<String>)
        ensures
            match r {
                Some(p) => spec_first_existing(
                    spec_assistant_candidates(opt_view(*path_hit), opt_view(*home)),
                    existing@,
                ) == Some(p@),
                None => spec_first_existing(
                    spec_assistant_candidates(opt_view(*path_hit), opt_view(*home)),
                    existing@,
                ) is None,
            },
    {
        let cands = Self::assistant_candidates(path_hit, home);
        let ghost cviews = str_views(cands@);
        let mut i: usize = 0;
        proof {
            assert(cviews == spec_assistant_candidates(opt_view(*path_hit), opt_view(*home)));
            assert(cviews.skip(0) =~= cviews);
        }
        while i < cands.len()
            invariant
                i <= cands@.len(),
                cviews == str_views(cands@),
                cviews == spec_assistant_candidates(opt_view(*path_hit), opt_view(*home)),
                forall|j: int|
                    0 <= j < i ==> !spec_contains_string(existing@, (#[trigger] cands@[j])@),
                spec_first_existing(cviews, existing@) == spec_first_existing(
                    cviews.skip(i as int),
                    existing@,
                ),
            decreases cands@.len() - i,
        {
            proof {
                assert(cviews.skip(i as int)[0] == cands@[i as int]@);
                assert(cviews.skip(i as int).drop_first() =~= cviews.skip(i as int + 1));
            }
            if crate::ident::contains_string(existing, cands[i].as_str()) {
                let hit = cands[i].clone();
                proof {
                    assert(cviews.skip(i as int).len() > 0);
                    assert(spec_first_existing(cviews.skip(i as int), existing@) == Some(
                        cands@[i as int]@,
                    ));
                    assert(hit@ == cands@[i as int]@);
                    assert(spec_first_existing(cviews, existing@) == Some(hit@));
                }
                return Some(hit);
            }
            i += 1;
        }
        proof {
            assert(cviews.skip(i as int) =~= Seq::<Seq<char>>::empty());
        }
        None
    }

    /// Whether the assistant is available: some candidate location exists.
    pub fn is_available(
        path_hit: &Option<String>,
        home: &Option<String>,
        existing: &Vec<String>,
    ) -> (r: bool)
        ensures
            r == !(spec_first_existing(
                spec_assistant_candidates(opt_view(*path_hit), opt_view(*home)),
                existing@,
            ) is None),
    {
        match Self::find_assistant_binary_public(path_hit, home, existing) {
            Some(_) => true,
            None => false,
        }
    }
}

} // verus!
