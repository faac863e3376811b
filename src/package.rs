use vstd::prelude::*;

verus! {

/// One package of the repository, as the metadata service describes it.
///
/// The service reports popularity as a non-negative real number. It is held
/// here as the IEEE-754 bit pattern of that number: on non-negative values,
/// comparing the bit patterns as unsigned integers orders them exactly as the
/// numbers are ordered, and the number itself is recovered without loss.
pub struct AurPackage {
    pub name: String,
    pub version: String,
    pub description: Option<String>,
    pub maintainer: Option<String>,
    pub votes: Option<i32>,
    pub popularity_bits: Option<u64>,
    pub out_of_date: Option<i64>,
    pub last_modified: Option<i64>,
    pub url: Option<String>,
    pub url_path: Option<String>,
    pub depends: Option<Vec<String>>,
    pub makedepends: Option<Vec<String>>,
    pub optdepends: Option<Vec<String>>,
    pub conflicts: Option<Vec<String>>,
    pub license: Option<Vec<String>>,
}

/// The mathematical content of an `AurPackage`.
pub struct PackageView {
    pub name: Seq<char>,
    pub version: Seq<char>,
    pub description: Option<Seq<char>>,
    pub maintainer: Option<Seq<char>>,
    pub votes: Option<i32>,
    pub popularity_bits: Option<u64>,
    pub out_of_date: Option<i64>,
    pub last_modified: Option<i64>,
    pub url: Option<Seq<char>>,
    pub url_path: Option<Seq<char>>,
    pub depends: Option<Seq<Seq<char>>>,
    pub makedepends: Option<Seq<Seq<char>>>,
    pub optdepends: Option<Seq<Seq<char>>>,
    pub conflicts: Option<Seq<Seq<char>>>,
    pub license: Option<Seq<Seq<char>>>,
}

pub open spec fn text_view(o: Option<String>) -> Option<Seq<char>> {
    match o {
        Some(s) => Some(s@),
        None => None,
    }
}

pub open spec fn list_view(o: Option<Vec<String>>) -> Option<Seq<Seq<char>>> {
    match o {
        Some(v) => Some(v@.map_values(|s: String| s@)),
        None => None,
    }
}

impl View for AurPackage {
    type V = PackageView;

    open spec fn view(&self) -> PackageView {
        PackageView {
            name: self.name@,
            version: self.version@,
            description: text_view(self.description),
            maintainer: text_view(self.maintainer),
            votes: self.votes,
            popularity_bits: self.popularity_bits,
            out_of_date: self.out_of_date,
            last_modified: self.last_modified,
            url: text_view(self.url),
            url_path: text_view(self.url_path),
            depends: list_view(self.depends),
            makedepends: list_view(self.makedepends),
            optdepends: list_view(self.optdepends),
            conflicts: list_view(self.conflicts),
            license: list_view(self.license),
        }
    }
}

/// The views of a sequence of packages.
pub open spec fn packages_view(v: Seq<AurPackage>) -> Seq<PackageView> {
    v.map_values(|p: AurPackage| p@)
}

fn copy_text(o: &Option<String>) -> (r: Option<String>)
    ensures
        text_view(r) == text_view(*o),
{
    match o {
        Some(s) => Some(s.clone()),
        None => None,
    }
}

fn copy_list(o: &Option<Vec<String>>) -> (r: Option<Vec<String>>)
    ensures
        list_view(r) == list_view(*o),
{
    match o {
        Some(v) => {
            let mut out: Vec<String> = Vec::new();
            let mut i: usize = 0;
            while i < v.len()
                invariant
                    i <= v@.len(),
                    out@.len() == i,
                    forall|k: int| 0 <= k < i ==> #[trigger] out@[k]@ == v@[k]@,
                decreases v@.len() - i,
            {
                out.push(v[i].clone());
                i = i + 1;
            }
            assert(out@.map_values(|s: String| s@) =~= v@.map_values(|s: String| s@));
            Some(out)
        },
        None => None,
    }
}

impl AurPackage {
    /// A package with the same content.
    pub fn duplicate(&self) -> (r: AurPackage)
        ensures
            r@ == self@,
    {
        AurPackage {
            name: self.name.clone(),
            version: self.version.clone(),
            description: copy_text(&self.description),
            maintainer: copy_text(&self.maintainer),
            votes: self.votes,
            popularity_bits: self.popularity_bits,
            out_of_date: self.out_of_date,
            last_modified: self.last_modified,
            url: copy_text(&self.url),
            url_path: copy_text(&self.url_path),
            depends: copy_list(&self.depends),
            makedepends: copy_list(&self.makedepends),
            optdepends: copy_list(&self.optdepends),
            conflicts: copy_list(&self.conflicts),
            license: copy_list(&self.license),
        }
    }
}

/// Copies every package of a list, keeping the order.
pub fn duplicate_all(v: &Vec<AurPackage>) -> (r: Vec<AurPackage>)
    ensures
        packages_view(r@) == packages_view(v@),
{
    let mut out: Vec<AurPackage> = Vec::new();
    let mut i: usize = 0;
    while i < v.len()
        invariant
            i <= v@.len(),
            out@.len() == i,
            forall|k: int| 0 <= k < i ==> #[trigger] out@[k]@ == v@[k]@,
        decreases v@.len() - i,
    {
        out.push(v[i].duplicate());
        i = i + 1;
    }
    assert(packages_view(out@) =~= packages_view(v@));
    out
}

} // verus!
