//! Planning an update: which installed packages are replaced by which archives.

use vstd::prelude::*;
use crate::index::index_ok;
use crate::model::{
    is_first_error, no_refusal, AvailablePackages, InstalledDb, PkgError,
};
use crate::names::{
    is_first_max, is_first_with_version, max_version_index, package_name, package_version,
    specific_version_index, split_package_name_version, url_version, version_of_url,
};
use crate::text::{chars_of, same_text, slice_string, texts};
use crate::version::lemma_tuple_order_total;

verus! {

/// One update: the installed package that is replaced, and what replaces it.
#[derive(Debug, Clone, PartialEq)]
pub struct PackageUpdate {
    pub name_old: String,
    pub version_old: String,
    pub name_new: String,
    pub version_new: String,
    /// Where the new archive is offered.
    pub url: String,
    /// Where the new archive lies once it has been fetched.
    pub local_fn: String,
}

/// The texts of an update.
pub struct UpdateView {
    pub name_old: Seq<char>,
    pub version_old: Seq<char>,
    pub name_new: Seq<char>,
    pub version_new: Seq<char>,
    pub url: Seq<char>,
    pub local_fn: Seq<char>,
}

impl View for PackageUpdate {
    type V = UpdateView;

    open spec fn view(&self) -> UpdateView {
        UpdateView {
            name_old: self.name_old@,
            version_old: self.version_old@,
            name_new: self.name_new@,
            version_new: self.version_new@,
            url: self.url@,
            local_fn: self.local_fn@,
        }
    }
}

/// The texts of a list of updates.
pub open spec fn update_views(v: Seq<PackageUpdate>) -> Seq<UpdateView> {
    Seq::new(v.len(), |i: int| v[i]@)
}

/// The first index from `from` on at which `s` holds two dots in a row, or
/// the length of `s` if there is none.
pub open spec fn find_dots(s: Seq<char>, from: int) -> int
    decreases s.len() - from,
{
    if from < 0 || from + 1 >= s.len() {
        s.len() as int
    } else if s[from] == '.' && s[from + 1] == '.' {
        from
    } else {
        find_dots(s, from + 1)
    }
}

/// What a request asks for. `old..new` replaces the package `old` by the
/// package `new`, each with or without a version; a request without `..`
/// replaces a package by another version of itself.
pub open spec fn requested_update(p: Seq<char>) -> UpdateView {
    let d = find_dots(p, 0);
    if d < p.len() {
        let old = p.take(d);
        let new = p.subrange(d + 2, find_dots(p, d + 2));
        UpdateView {
            name_old: package_name(old),
            version_old: package_version(old),
            name_new: package_name(new),
            version_new: package_version(new),
            url: Seq::empty(),
            local_fn: Seq::empty(),
        }
    } else {
        UpdateView {
            name_old: package_name(p),
            version_old: Seq::empty(),
            name_new: package_name(p),
            version_new: package_version(p),
            url: Seq::empty(),
            local_fn: Seq::empty(),
        }
    }
}

/// Why the installed packages do not allow the update that request number
/// `i` asks for: the package to replace is not installed, or not in the
/// version asked for, or the update would rename it to a package that is
/// installed too.
pub open spec fn installed_refusal(u: UpdateView, i: int, installed: InstalledDb) -> Option<
    PkgError,
> {
    if !installed.has(u.name_old) {
        Some(PkgError::NotInstalled { request: i as usize })
    } else if u.version_old.len() > 0 && u.version_old != installed.value_of(u.name_old).version@ {
        Some(PkgError::NotInstalled { request: i as usize })
    } else if u.name_old != u.name_new && installed.has(u.name_new) {
        Some(PkgError::AlreadyInstalled { request: i as usize })
    } else {
        None
    }
}

/// The index of the first address in `urls` with the greatest version.
pub open spec fn first_max(urls: Seq<Seq<char>>) -> int {
    choose|m: int| is_first_max(urls, m)
}

/// The index of the first address in `urls` with the version `version`.
pub open spec fn first_with_version(urls: Seq<Seq<char>>, version: Seq<char>) -> int {
    choose|i: int| is_first_with_version(urls, version, i)
}

/// Whether some address in `urls` has the version `version`.
pub open spec fn offers_version(urls: Seq<Seq<char>>, version: Seq<char>) -> bool {
    exists|i: int| is_first_with_version(urls, version, i)
}

/// The version that the update `u` leads to: the one asked for, or the
/// greatest that is offered.
pub open spec fn target_version(u: UpdateView, available: AvailablePackages) -> Seq<char> {
    let urls = texts(available.value_of(u.name_new)@);
    if u.version_new.len() == 0 {
        url_version(urls[first_max(urls)])
    } else {
        u.version_new
    }
}

/// Why the repositories do not allow the update that request number `i`
/// asks for: they do not offer the new package, or not in the version asked for.
pub open spec fn available_refusal(u: UpdateView, i: int, available: AvailablePackages) -> Option<
    PkgError,
> {
    if !available.has(u.name_new) {
        Some(PkgError::NotAvailable { request: i as usize })
    } else if !offers_version(texts(available.value_of(u.name_new)@), target_version(u, available)) {
        Some(PkgError::NotAvailable { request: i as usize })
    } else {
        None
    }
}

/// The update `u` with what was left open filled in: the installed version
/// as the old version, the version that the update leads to as the new one,
/// and the address of the first archive offered in that version.
pub open spec fn resolved_update(
    u: UpdateView,
    installed: InstalledDb,
    available: AvailablePackages,
) -> UpdateView {
    let urls = texts(available.value_of(u.name_new)@);
    let version_new = target_version(u, available);
    UpdateView {
        name_old: u.name_old,
        version_old: if u.version_old.len() == 0 {
            installed.value_of(u.name_old).version@
        } else {
            u.version_old
        },
        name_new: u.name_new,
        version_new: version_new,
        url: urls[first_with_version(urls, version_new)],
        local_fn: Seq::empty(),
    }
}

/// Whether an update changes anything: the name or the version.
pub open spec fn is_change(u: UpdateView) -> bool {
    u.name_old != u.name_new || u.version_old != u.version_new
}

/// The updates in `updates` that are carried out: all of them if forced,
/// else those that change something.
pub open spec fn effective_updates(updates: Seq<UpdateView>, force: bool) -> Seq<UpdateView> {
    updates.filter(|u: UpdateView| force || is_change(u))
}

/// For each request, why the installed packages do not allow it.
pub open spec fn installed_refusals(packages: Seq<Seq<char>>, installed: InstalledDb) -> Seq<
    Option<PkgError>,
> {
    Seq::new(packages.len(), |i: int| installed_refusal(requested_update(packages[i]), i, installed))
}

/// For each request, why the repositories do not allow it.
pub open spec fn available_refusals(packages: Seq<Seq<char>>, available: AvailablePackages) -> Seq<
    Option<PkgError>,
> {
    Seq::new(packages.len(), |i: int| available_refusal(requested_update(packages[i]), i, available))
}

/// For each request, the update it asks for with what was left open filled in.
pub open spec fn resolved_updates(
    packages: Seq<Seq<char>>,
    installed: InstalledDb,
    available: AvailablePackages,
) -> Seq<UpdateView> {
    Seq::new(
        packages.len(),
        |i: int| resolved_update(requested_update(packages[i]), installed, available),
    )
}

/// There is one first address with the greatest version.
pub proof fn lemma_first_max_unique(urls: Seq<Seq<char>>, m: int)
    requires
        is_first_max(urls, m),
    ensures
        first_max(urls) == m,
{
    let k = first_max(urls);
    assert(is_first_max(urls, k));
    if k < m {
        lemma_tuple_order_total(
            version_tuple_at(urls, k),
            version_tuple_at(urls, m),
        );
    } else if m < k {
        lemma_tuple_order_total(
            version_tuple_at(urls, m),
            version_tuple_at(urls, k),
        );
    }
}

/// The numbers of the version of the address at index `i`.
pub open spec fn version_tuple_at(urls: Seq<Seq<char>>, i: int) -> Seq<u64> {
    crate::names::url_tuple(urls[i])
}

/// There is one first address with a given version.
pub proof fn lemma_first_with_version_unique(urls: Seq<Seq<char>>, version: Seq<char>, i: int)
    requires
        is_first_with_version(urls, version, i),
    ensures
        first_with_version(urls, version) == i,
        offers_version(urls, version),
{
    let k = first_with_version(urls, version);
    assert(is_first_with_version(urls, version, k));
    if k < i {
        assert(url_version(urls[k]) != version);
    } else if i < k {
        assert(url_version(urls[i]) != version);
    }
}

/// Looks for two dots in a row in `chars`, from index `from` on.
fn dots_from(chars: &Vec<char>, from: usize) -> (r: usize)
    requires
        from <= chars.len(),
    ensures
        r == find_dots(chars@, from as int),
        from <= r <= chars.len(),
        r < chars.len() ==> r + 2 <= chars.len(),
{
    let mut i: usize = from;
    while i < chars.len() && i + 1 < chars.len()
        invariant
            from <= i <= chars.len(),
            find_dots(chars@, from as int) == find_dots(chars@, i as int),
        decreases chars.len() - i,
    {
        if chars[i] == '.' && chars[i + 1] == '.' {
            return i;
        }
        i += 1;
    }
    chars.len()
}

/// Reads what a request asks for.
pub fn parse_update_request(p: &str) -> (r: PackageUpdate)
    ensures
        r@ == requested_update(p@),
{
    let chars = chars_of(p);
    let d = dots_from(&chars, 0);
    if d < chars.len() {
        let d2 = dots_from(&chars, d + 2);
        let old = slice_string(p, 0, d);
        let new = slice_string(p, d + 2, d2);
        assert(p@.take(d as int) =~= p@.subrange(0, d as int));
        let (name_old, version_old) = split_package_name_version(old.as_str());
        let (name_new, version_new) = split_package_name_version(new.as_str());
        PackageUpdate {
            name_old,
            version_old,
            name_new,
            version_new,
            url: String::new(),
            local_fn: String::new(),
        }
    } else {
        let (name, version) = split_package_name_version(p);
        PackageUpdate {
            name_old: name.clone(),
            version_old: String::new(),
            name_new: name,
            version_new: version,
            url: String::new(),
            local_fn: String::new(),
        }
    }
}

/// Records that an update was carried out: the database no longer holds the
/// package that was replaced, and holds `record` under the new name.
pub fn record_update(
    installed_packages: &mut InstalledDb,
    update: &PackageUpdate,
    record: crate::model::InstalledPackage,
)
    requires
        old(installed_packages).wf(),
    ensures
        final(installed_packages).wf(),
        final(installed_packages)@ == old(installed_packages)@.remove(update@.name_old).insert(
            update@.name_new,
            record,
        ),
{
    installed_packages.remove(update.name_old.as_str());
    installed_packages.insert(update.name_new.clone(), record);
}

/// A copy of an update.
pub fn copy_update(u: &PackageUpdate) -> (r: PackageUpdate)
    ensures
        r@ == u@,
{
    PackageUpdate {
        name_old: u.name_old.clone(),
        version_old: u.version_old.clone(),
        name_new: u.name_new.clone(),
        version_new: u.version_new.clone(),
        url: u.url.clone(),
        local_fn: u.local_fn.clone(),
    }
}

/// Plans an update. Each request is read, held against the installed
/// packages and then against what the repositories offer; the first request
/// that the installed packages do not allow is reported, else the first that
/// the repositories do not allow. Where all are allowed, the result holds
/// the updates to carry out, in the order of the requests: all of them if
/// `force` is set, else those that change a name or a version.
pub fn update_packages(
    packages: Vec<String>,
    installed_packages: &InstalledDb,
    available_packages: &AvailablePackages,
    force: bool,
) -> (r: Result<Vec<PackageUpdate>, PkgError>)
    requires
        index_ok(*available_packages),
    ensures
        match r {
            Ok(updates) => {
                &&& no_refusal(installed_refusals(texts(packages@), *installed_packages))
                &&& no_refusal(available_refusals(texts(packages@), *available_packages))
                &&& update_views(updates@) == effective_updates(
                    resolved_updates(texts(packages@), *installed_packages, *available_packages),
                    force,
                )
            },
            Err(e) => {
                ||| is_first_error(installed_refusals(texts(packages@), *installed_packages), e)
                ||| (no_refusal(installed_refusals(texts(packages@), *installed_packages))
                    && is_first_error(
                    available_refusals(texts(packages@), *available_packages),
                    e,
                ))
            },
        },
{
    let ghost reqs = texts(packages@);
    let ghost refused_here = installed_refusals(reqs, *installed_packages);
    let ghost refused_there = available_refusals(reqs, *available_packages);
    let ghost wanted = resolved_updates(reqs, *installed_packages, *available_packages);
    let n = packages.len();

    let mut found: Vec<PackageUpdate> = Vec::new();
    let mut i: usize = 0;
    while i < n
        invariant
            n == packages.len(),
            i <= n,
            reqs == texts(packages@),
            refused_here == installed_refusals(reqs, *installed_packages),
            found@.len() == i,
            forall|j: int| 0 <= j < i ==> #[trigger] refused_here[j] is None,
            forall|j: int|
                0 <= j < i ==> {
                    let u = requested_update(reqs[j]);
                    &&& (#[trigger] found@[j])@.name_old == u.name_old
                    &&& found@[j]@.name_new == u.name_new
                    &&& found@[j]@.version_new == u.version_new
                    &&& found@[j]@.version_old == if u.version_old.len() == 0 {
                        installed_packages.value_of(u.name_old).version@
                    } else {
                        u.version_old
                    }
                },
        decreases n - i,
    {
        let mut u = parse_update_request(packages[i].as_str());
        assert(u@ == requested_update(reqs[i as int]));
        let ghost asked = u@;
        assert(refused_here[i as int] == installed_refusal(asked, i as int, *installed_packages));
        assert(installed_packages.has(asked.name_old) <==> installed_packages@.dom().contains(
            asked.name_old,
        ));
        assert(installed_packages.has(asked.name_new) <==> installed_packages@.dom().contains(
            asked.name_new,
        ));
        match installed_packages.get(u.name_old.as_str()) {
            None => {
                return Err(PkgError::NotInstalled { request: i });
            },
            Some(package) => {
                assert(*package == installed_packages.value_of(asked.name_old));
                if u.version_old.as_str().unicode_len() == 0 {
                    u.version_old = package.version.clone();
                } else if !same_text(u.version_old.as_str(), package.version.as_str()) {
                    return Err(PkgError::NotInstalled { request: i });
                }
            },
        }
        if !same_text(u.name_old.as_str(), u.name_new.as_str()) && installed_packages.contains_key(
            u.name_new.as_str(),
        ) {
            return Err(PkgError::AlreadyInstalled { request: i });
        }
        found.push(u);
        i += 1;
    }
    assert(no_refusal(refused_here));

    let mut resolved: Vec<PackageUpdate> = Vec::new();
    let mut i: usize = 0;
    while i < n
        invariant
            n == packages.len(),
            i <= n,
            reqs == texts(packages@),
            index_ok(*available_packages),
            refused_there == available_refusals(reqs, *available_packages),
            wanted == resolved_updates(reqs, *installed_packages, *available_packages),
            no_refusal(refused_here),
            refused_here == installed_refusals(reqs, *installed_packages),
            found@.len() == n,
            resolved@.len() == i,
            forall|j: int| 0 <= j < i ==> #[trigger] refused_there[j] is None,
            forall|j: int| 0 <= j < i ==> (#[trigger] resolved@[j])@ == wanted[j],
            forall|j: int|
                0 <= j < n ==> {
                    let u = requested_update(reqs[j]);
                    &&& (#[trigger] found@[j])@.name_old == u.name_old
                    &&& found@[j]@.name_new == u.name_new
                    &&& found@[j]@.version_new == u.version_new
                    &&& found@[j]@.version_old == if u.version_old.len() == 0 {
                        installed_packages.value_of(u.name_old).version@
                    } else {
                        u.version_old
                    }
                },
        decreases n - i,
    {
        let ghost asked = requested_update(reqs[i as int]);
        let u = &found[i];
        assert(refused_there[i as int] == available_refusal(asked, i as int, *available_packages));
        assert(wanted[i as int] == resolved_update(asked, *installed_packages, *available_packages));
        assert(available_packages.has(asked.name_new) <==> available_packages@.dom().contains(
            asked.name_new,
        ));
        let urls = match available_packages.get(u.name_new.as_str()) {
            None => {
                return Err(PkgError::NotAvailable { request: i });
            },
            Some(urls) => urls,
        };
        assert(*urls == available_packages.value_of(asked.name_new));
        let ghost offered = texts(urls@);
        let version_new = if u.version_new.as_str().unicode_len() == 0 {
            match max_version_index(urls) {
                Some(m) => {
                    proof {
                        lemma_first_max_unique(offered, m as int);
                    }
                    version_of_url(urls[m].as_str())
                },
                None => String::new(),
            }
        } else {
            u.version_new.clone()
        };
        assert(version_new@ == target_version(asked, *available_packages));
        let url = match specific_version_index(urls, version_new.as_str()) {
            None => {
                assert(!offers_version(offered, version_new@)) by {
                    if offers_version(offered, version_new@) {
                        let k = choose|k: int| is_first_with_version(offered, version_new@, k);
                        assert(url_version(offered[k]) != version_new@);
                    }
                }
                return Err(PkgError::NotAvailable { request: i });
            },
            Some(k) => {
                proof {
                    lemma_first_with_version_unique(offered, version_new@, k as int);
                }
                urls[k].clone()
            },
        };
        resolved.push(
            PackageUpdate {
                name_old: u.name_old.clone(),
                version_old: u.version_old.clone(),
                name_new: u.name_new.clone(),
                version_new,
                url,
                local_fn: String::new(),
            },
        );
        i += 1;
    }
    assert(no_refusal(refused_there));
    assert(update_views(resolved@) =~= wanted);

    let mut out: Vec<PackageUpdate> = Vec::new();
    let mut i: usize = 0;
    assert(effective_updates(wanted.take(0), force) =~= Seq::<UpdateView>::empty()) by {
        reveal(Seq::filter);
    }
    while i < n
        invariant
            i <= n,
            resolved@.len() == n,
            update_views(resolved@) == wanted,
            out@.len() <= i,
            update_views(out@) == effective_updates(wanted.take(i as int), force),
        decreases n - i,
    {
        let u = &resolved[i];
        assert(u@ == wanted[i as int]);
        proof {
            reveal(Seq::filter);
            assert(wanted.take(i + 1).drop_last() =~= wanted.take(i as int));
        }
        let changes = !same_text(u.name_old.as_str(), u.name_new.as_str()) || !same_text(
            u.version_old.as_str(),
            u.version_new.as_str(),
        );
        if force || changes {
            let ghost kept = update_views(out@);
            out.push(copy_update(u));
            assert(update_views(out@) =~= kept.push(u@));
        }
        i += 1;
    }
    assert(wanted.take(n as int) =~= wanted);
    Ok(out)
}

} // verus!
