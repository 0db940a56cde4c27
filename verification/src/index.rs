//! The repository index: which archives the repositories offer, by package name.

use vstd::prelude::*;
use crate::model::{AvailablePackages, PkgError};
use crate::names::{
    all_versioned, file_name_of, get_package_fn, get_package_name, is_url, is_valid_package_fn,
    spec_is_url, spec_is_valid_package_fn, url_name, url_version, version_of_url,
};
use crate::text::{
    copy_strings, first_occurrences, pair_texts, pairs_sorted, sort_pairs, texts,
};
use crate::version::{is_version, is_version_string};

verus! {

/// Whether the index lists the archive at `url`: its file name is that of
/// a package archive, and its version can be read as numbers.
pub open spec fn is_listed(url: Seq<char>) -> bool {
    spec_is_valid_package_fn(file_name_of(url)) && is_version(url_version(url))
}

/// The listed addresses in `listing` of the archives of the package `name`, in
/// the order of the listing.
pub open spec fn urls_named(listing: Seq<Seq<char>>, name: Seq<char>) -> Seq<Seq<char>> {
    listing.filter(|u: Seq<char>| is_listed(u) && url_name(u) == name)
}

/// The package names of the listed addresses in `listing`, in the order of
/// the listing.
pub open spec fn names_in(listing: Seq<Seq<char>>) -> Seq<Seq<char>>
    decreases listing.len(),
{
    if listing.len() == 0 {
        Seq::empty()
    } else if is_listed(listing.last()) {
        names_in(listing.drop_last()).push(url_name(listing.last()))
    } else {
        names_in(listing.drop_last())
    }
}

/// `available` is the index of `listing`: it has the names of the listed
/// archives, in the order in which the listing has them first, and for each
/// name their addresses in the order of the listing.
pub open spec fn is_index_of(available: AvailablePackages, listing: Seq<Seq<char>>) -> bool {
    &&& available.wf()
    &&& available.keys() == first_occurrences(names_in(listing))
    &&& forall|name: Seq<char>| #[trigger]
        available.has(name) <==> urls_named(listing, name).len() > 0
    &&& forall|name: Seq<char>| #[trigger]
        available.has(name) ==> texts(available.value_of(name)@) == urls_named(listing, name)
}

/// What every index holds: under each name at least one address, each of an
/// archive of that name with a version that can be read as numbers.
pub open spec fn index_ok(available: AvailablePackages) -> bool {
    &&& available.wf()
    &&& forall|name: Seq<char>| #[trigger]
        available.has(name) ==> {
            let urls = texts(available.value_of(name)@);
            &&& urls.len() > 0
            &&& all_versioned(urls)
            &&& forall|j: int| 0 <= j < urls.len() ==> url_name(#[trigger] urls[j]) == name
        }
}

/// One more address in the listing adds to the addresses of its own name, if
/// it is listed, and to no others.
pub proof fn lemma_urls_named_push(listing: Seq<Seq<char>>, url: Seq<char>, name: Seq<char>)
    ensures
        urls_named(listing.push(url), name) == if is_listed(url) && url_name(url) == name {
            urls_named(listing, name).push(url)
        } else {
            urls_named(listing, name)
        },
{
    reveal(Seq::filter);
    assert(listing.push(url).drop_last() =~= listing);
}

/// The addresses of a name are listed, and are of that name.
pub proof fn lemma_urls_named_members(listing: Seq<Seq<char>>, name: Seq<char>)
    ensures
        forall|j: int|
            0 <= j < urls_named(listing, name).len() ==> is_listed(
                #[trigger] urls_named(listing, name)[j],
            ) && url_name(urls_named(listing, name)[j]) == name,
    decreases listing.len(),
{
    reveal(Seq::filter);
    if listing.len() > 0 {
        lemma_urls_named_members(listing.drop_last(), name);
    }
}

/// The index of a listing holds what every index holds.
pub proof fn lemma_index_of_is_ok(available: AvailablePackages, listing: Seq<Seq<char>>)
    requires
        is_index_of(available, listing),
    ensures
        index_ok(available),
{
    assert forall|name: Seq<char>| #[trigger] available.has(name) implies {
        let urls = texts(available.value_of(name)@);
        &&& urls.len() > 0
        &&& all_versioned(urls)
        &&& forall|j: int| 0 <= j < urls.len() ==> url_name(#[trigger] urls[j]) == name
    } by {
        lemma_urls_named_members(listing, name);
    }
}

/// Builds the index of a listing of archive addresses. Addresses whose file
/// name is not that of a package archive are left out.
pub fn get_available_packages(listing: &Vec<String>) -> (r: AvailablePackages)
    ensures
        is_index_of(r, texts(listing@)),
        index_ok(r),
{
    let mut available: AvailablePackages = AvailablePackages::new();
    let ghost all = texts(listing@);
    let mut i: usize = 0;
    assert(all.take(0) =~= Seq::<Seq<char>>::empty());
    assert forall|name: Seq<char>| urls_named(all.take(0), name).len() == 0 by {
        reveal(Seq::filter);
    }
    while i < listing.len()
        invariant
            i <= listing.len(),
            all == texts(listing@),
            is_index_of(available, all.take(i as int)),
        decreases listing.len() - i,
    {
        let url = &listing[i];
        let ghost before = available;
        let ghost seen = all.take(i as int);
        proof {
            assert(all.take(i + 1) =~= seen.push(url@));
            assert(all.take(i + 1).drop_last() =~= seen);
            assert(all.take(i + 1).last() == url@);
            assert(names_in(seen).push(url_name(url@)).drop_last() =~= names_in(seen));
            assert forall|name: Seq<char>|
                urls_named(all.take(i + 1), name) == if is_listed(url@) && url_name(url@) == name {
                    urls_named(seen, name).push(url@)
                } else {
                    urls_named(seen, name)
                } by {
                lemma_urls_named_push(seen, url@, name);
            }
        }
        let file_name = match get_package_fn(url.as_str()) {
            Some(f) => f,
            None => String::new(),
        };
        if is_valid_package_fn(file_name.as_str()) && is_version_string(
            version_of_url(url.as_str()).as_str(),
        ) {
            let name = get_package_name(file_name.as_str());
            assert(available.has(name@) <==> available@.dom().contains(name@));
            let mut urls = match available.get(name.as_str()) {
                Some(list) => copy_strings(list),
                None => {
                    assert(urls_named(seen, name@) =~= Seq::<Seq<char>>::empty());
                    Vec::new()
                },
            };
            assert(texts(urls@) == urls_named(seen, name@));
            urls.push(url.clone());
            assert(texts(urls@) =~= urls_named(seen, name@).push(url@));
            available.insert(name, urls);
            proof {
                assert forall|q: Seq<char>| #[trigger]
                    available.has(q) <==> urls_named(all.take(i + 1), q).len() > 0 by {
                    assert(before.has(q) <==> before@.dom().contains(q));
                    assert(available.has(q) <==> available@.dom().contains(q));
                }
                assert forall|q: Seq<char>| #[trigger] available.has(q) implies texts(
                    available.value_of(q)@,
                ) == urls_named(all.take(i + 1), q) by {
                    assert(available.value_of(q) == available@[q]);
                    if q != name@ {
                        assert(before.has(q));
                        assert(before.value_of(q) == before@[q]);
                    }
                }
            }
        }
        i += 1;
    }
    proof {
        assert(all.take(listing.len() as int) =~= all);
        lemma_index_of_is_ok(available, all);
    }
    available
}

/// The repositories to ask: all of them, or when working offline those that
/// are not reached over HTTP(S).
pub fn repos_to_query(repos: &Vec<String>, offline: bool) -> (r: Vec<String>)
    ensures
        texts(r@) == texts(repos@).filter(|u: Seq<char>| !(offline && spec_is_url(u))),
{
    let mut r: Vec<String> = Vec::new();
    let ghost all = texts(repos@);
    let ghost keep = |u: Seq<char>| !(offline && spec_is_url(u));
    let mut i: usize = 0;
    assert(all.take(0).filter(keep) =~= Seq::<Seq<char>>::empty()) by {
        reveal(Seq::filter);
    }
    while i < repos.len()
        invariant
            i <= repos.len(),
            all == texts(repos@),
            keep == (|u: Seq<char>| !(offline && spec_is_url(u))),
            texts(r@) == all.take(i as int).filter(keep),
        decreases repos.len() - i,
    {
        proof {
            reveal(Seq::filter);
            assert(all.take(i + 1).drop_last() =~= all.take(i as int));
        }
        if !(offline && is_url(repos[i].as_str())) {
            r.push(repos[i].clone());
            assert(texts(r@) =~= all.take(i as int).filter(keep).push(repos@[i as int]@));
        }
        i += 1;
    }
    assert(all.take(repos.len() as int) =~= all);
    r
}

/// The versions that the index offers of the package `name`, each paired
/// with the name, in the order of the index.
pub open spec fn versions_named(available: AvailablePackages, name: Seq<char>) -> Seq<
    (Seq<char>, Seq<char>),
> {
    let urls = texts(available.value_of(name)@);
    Seq::new(urls.len(), |j: int| (name, url_version(urls[j])))
}

/// The versions that the index offers of the packages in `packages`, in the
/// order of `packages`.
pub open spec fn listed_versions(packages: Seq<Seq<char>>, available: AvailablePackages) -> Seq<
    (Seq<char>, Seq<char>),
>
    decreases packages.len(),
{
    if packages.len() == 0 {
        Seq::empty()
    } else {
        listed_versions(packages.drop_last(), available) + versions_named(
            available,
            packages.last(),
        )
    }
}

/// The names in the index, each paired with an empty version.
pub open spec fn listed_names(available: AvailablePackages) -> Seq<(Seq<char>, Seq<char>)> {
    Seq::new(available.keys().len(), |i: int| (available.keys()[i], Seq::<char>::empty()))
}

/// `i` is the index of the first name in `packages` that the index lacks.
pub open spec fn is_first_missing(
    packages: Seq<Seq<char>>,
    available: AvailablePackages,
    i: int,
) -> bool {
    &&& 0 <= i < packages.len()
    &&& !available.has(packages[i])
    &&& forall|j: int| 0 <= j < i ==> available.has(#[trigger] packages[j])
}

/// What `list_available` answers where it succeeds: all names if none is
/// asked for, else the versions of the names asked for.
pub open spec fn listing_answer(packages: Seq<Seq<char>>, available: AvailablePackages) -> Seq<
    (Seq<char>, Seq<char>),
> {
    if packages.len() == 0 {
        listed_names(available)
    } else {
        listed_versions(packages, available)
    }
}

/// Lists what the index offers, in ascending order. With no name given: every
/// package name, with an empty version. With names given: for each of them
/// every version offered; a name that the index lacks is an error.
pub fn list_available(packages: Vec<String>, available: &AvailablePackages) -> (r: Result<
    Vec<(String, String)>,
    PkgError,
>)
    ensures
        match r {
            Ok(list) => {
                &&& forall|i: int|
                    0 <= i < packages@.len() ==> available.has(#[trigger] texts(packages@)[i])
                &&& pairs_sorted(pair_texts(list@))
                &&& pair_texts(list@).to_multiset() == listing_answer(
                    texts(packages@),
                    *available,
                ).to_multiset()
            },
            Err(e) => e matches PkgError::NotAvailable { request } && is_first_missing(
                texts(packages@),
                *available,
                request as int,
            ),
        },
{
    let mut ret: Vec<(String, String)> = Vec::new();
    let ghost asked = texts(packages@);
    if packages.len() == 0 {
        let mut k: usize = 0;
        while k < available.len()
            invariant
                k <= available.keys().len(),
                ret@.len() == k,
                pair_texts(ret@) == listed_names(*available).take(k as int),
            decreases available.keys().len() - k,
        {
            let ghost done = ret@;
            ret.push((available.key_at(k).clone(), String::new()));
            assert forall|j: int| 0 <= j < k + 1 implies pair_texts(ret@)[j] == listed_names(
                *available,
            )[j] by {
                if j < k {
                    assert(pair_texts(done)[j] == listed_names(*available).take(k as int)[j]);
                }
            }
            assert(pair_texts(ret@) =~= listed_names(*available).take(k + 1));
            k += 1;
        }
        assert(listed_names(*available).take(k as int) =~= listed_names(*available));
    } else {
        let mut i: usize = 0;
        while i < packages.len()
            invariant
                i <= packages.len(),
                asked == texts(packages@),
                forall|j: int| 0 <= j < i ==> available.has(#[trigger] asked[j]),
                pair_texts(ret@) == listed_versions(asked.take(i as int), *available),
            decreases packages.len() - i,
        {
            let name = &packages[i];
            assert(name@ == asked[i as int]);
            assert(available.has(name@) <==> available@.dom().contains(name@));
            let urls = match available.get(name.as_str()) {
                Some(urls) => urls,
                None => {
                    return Err(PkgError::NotAvailable { request: i });
                },
            };
            assert(*urls == available.value_of(name@));
            let ghost base = pair_texts(ret@);
            let ghost wanted = versions_named(*available, name@);
            let mut j: usize = 0;
            while j < urls.len()
                invariant
                    j <= urls.len(),
                    *urls == available.value_of(name@),
                    wanted == versions_named(*available, name@),
                    pair_texts(ret@) == base + wanted.take(j as int),
                decreases urls.len() - j,
            {
                let ghost done = pair_texts(ret@);
                let version = version_of_url(urls[j].as_str());
                ret.push((name.clone(), version));
                assert(pair_texts(ret@) =~= done.push((name@, url_version(urls@[j as int]@))));
                assert(wanted.take(j + 1) =~= wanted.take(j as int).push(wanted[j as int]));
                assert(pair_texts(ret@) =~= base + wanted.take(j + 1));
                j += 1;
            }
            proof {
                assert(wanted.take(urls.len() as int) =~= wanted);
                assert(asked.take(i + 1).drop_last() =~= asked.take(i as int));
            }
            i += 1;
        }
        assert(asked.take(packages.len() as int) =~= asked);
    }
    sort_pairs(&mut ret);
    Ok(ret)
}

/// Whether a directory with these entries is empty.
pub fn is_empty_dir(entries: &Vec<String>) -> (r: bool)
    ensures
        r == (entries@.len() == 0),
{
    entries.len() == 0
}

} // verus!
