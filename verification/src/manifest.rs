//! Manifests: the routes from source paths to destination paths that an
//! operation will write, where no two routes share a source or a
//! destination.

use bimap::BiHashMap;
use vstd::prelude::*;

verus! {

#[verifier::external_type_specification]
#[verifier::external_body]
#[verifier::reject_recursive_types(L)]
#[verifier::reject_recursive_types(R)]
#[verifier::reject_recursive_types(LS)]
#[verifier::reject_recursive_types(RS)]
pub struct ExBiHashMap<L, R, LS, RS>(BiHashMap<L, R, LS, RS>);

/// The left-right pairs that a bimap of paths holds, each path taken by its
/// characters.
pub uninterp spec fn bimap_pairs(map: BiHashMap<String, String>) -> Set<(Seq<char>, Seq<char>)>;

/// `true` when some pair has `left` on its left.
pub open spec fn left_taken(pairs: Set<(Seq<char>, Seq<char>)>, left: Seq<char>) -> bool {
    exists|right: Seq<char>| pairs.contains((left, right))
}

/// `true` when some pair has `right` on its right.
pub open spec fn right_taken(pairs: Set<(Seq<char>, Seq<char>)>, right: Seq<char>) -> bool {
    exists|left: Seq<char>| pairs.contains((left, right))
}

/// `true` when no two pairs share a left or a right: the pairs are a
/// bijection between their lefts and their rights.
pub open spec fn is_bijective(pairs: Set<(Seq<char>, Seq<char>)>) -> bool {
    forall|p: (Seq<char>, Seq<char>), q: (Seq<char>, Seq<char>)|
        #![trigger pairs.contains(p), pairs.contains(q)]
        pairs.contains(p) && pairs.contains(q) && (p.0 == q.0 || p.1 == q.1) ==> p == q
}

/// `BiHashMap::new`: an empty bimap.
#[verifier::external_body]
fn bimap_new() -> (r: BiHashMap<String, String>)
    ensures
        bimap_pairs(r) == Set::<(Seq<char>, Seq<char>)>::empty(),
{
    BiHashMap::new()
}

/// `BiHashMap::insert_no_overwrite`: where neither `left` nor `right` is in
/// the bimap, adds the pair and returns `Ok`; otherwise leaves the bimap
/// unchanged and hands the pair back in `Err`. Values are compared with
/// `String`'s `==`, that is, by their characters.
#[verifier::external_body]
fn bimap_insert_no_overwrite(map: &mut BiHashMap<String, String>, left: String, right: String) -> (r: Result<(), (String, String)>)
    ensures
        !left_taken(bimap_pairs(*old(map)), left@) && !right_taken(bimap_pairs(*old(map)), right@)
            ==> r is Ok && bimap_pairs(*final(map)) == bimap_pairs(*old(map)).insert((left@, right@)),
        left_taken(bimap_pairs(*old(map)), left@) || right_taken(bimap_pairs(*old(map)), right@) ==> {
            &&& r matches Err((l, q)) && l@ == left@ && q@ == right@
            &&& bimap_pairs(*final(map)) == bimap_pairs(*old(map))
        },
{
    map.insert_no_overwrite(left, right)
}

/// `BiHashMap::iter`, each pair copied: every pair of the bimap once, in an
/// order that the crate leaves unspecified.
#[verifier::external_body]
fn bimap_iter(map: &BiHashMap<String, String>) -> (r: Vec<(String, String)>)
    ensures
        forall|i: int| 0 <= i < r@.len() ==> bimap_pairs(*map).contains((#[trigger] r@[i].0@, r@[i].1@)),
        forall|p: (Seq<char>, Seq<char>)| #[trigger] bimap_pairs(*map).contains(p)
            ==> exists|i: int| 0 <= i < r@.len() && (r@[i].0@, r@[i].1@) == p,
        forall|i: int, j: int|
            0 <= i < j < r@.len() ==> (#[trigger] r@[i].0@, r@[i].1@) != (#[trigger] r@[j].0@, r@[j].1@),
{
    map.iter().map(|(l, r)| (l.clone(), r.clone())).collect()
}

/// Why a route could not be added to a manifest.
#[derive(Debug)]
#[non_exhaustive]
pub enum ManifestError {
    /// The source or the destination of the route is already routed; the
    /// error holds the destination.
    PathCollision(String),
}

impl ManifestError {
    /// The description of the error.
    pub open spec fn message_spec(&self) -> Seq<char> {
        match self {
            ManifestError::PathCollision(destination) => "detected collision in route destination path: `"@
                + destination@ + "`"@,
        }
    }

    /// A description of the error.
    pub fn message(&self) -> (r: String)
        ensures
            r@ == self.message_spec(),
    {
        match self {
            ManifestError::PathCollision(destination) => {
                let mut m = crate::text::copy_str("detected collision in route destination path: `");
                crate::text::push_str(&mut m, destination.as_str());
                crate::text::push_str(&mut m, "`");
                m
            },
        }
    }
}

/// The endpoint of a route: its paths.
pub trait Endpoint {
    fn paths(&self) -> Vec<String>;
}

impl Endpoint for String {
    /// A path is its own single endpoint path.
    fn paths(&self) -> (r: Vec<String>)
        ensures
            r@.len() == 1,
            r@[0]@ == self@,
    {
        let mut r = Vec::new();
        r.push(self.clone());
        r
    }
}

/// A route from a source path to a destination path.
#[derive(Debug)]
pub struct Route {
    source: String,
    destination: String,
}

impl Route {
    pub closed spec fn source_spec(&self) -> Seq<char> {
        self.source@
    }

    pub closed spec fn destination_spec(&self) -> Seq<char> {
        self.destination@
    }

    /// The source path.
    pub fn source(&self) -> (r: &String)
        ensures
            r@ == self.source_spec(),
    {
        &self.source
    }

    /// The destination path.
    pub fn destination(&self) -> (r: &String)
        ensures
            r@ == self.destination_spec(),
    {
        &self.destination
    }
}

/// A one-to-one router: each source has one destination and each
/// destination one source.
pub struct Bijective {
    bimap: BiHashMap<String, String>,
}

impl View for Bijective {
    type V = Set<(Seq<char>, Seq<char>)>;

    closed spec fn view(&self) -> Set<(Seq<char>, Seq<char>)> {
        bimap_pairs(self.bimap)
    }
}

impl Bijective {
    #[verifier::type_invariant]
    spec fn inv(self) -> bool {
        &&& bimap_pairs(self.bimap).finite()
        &&& is_bijective(bimap_pairs(self.bimap))
    }

    /// A router without routes.
    pub fn new() -> (r: Bijective)
        ensures
            r@ == Set::<(Seq<char>, Seq<char>)>::empty(),
    {
        Bijective { bimap: bimap_new() }
    }

    /// Adds the route from `source` to `destination`, unless either is
    /// already routed: then nothing changes and the error names the
    /// destination.
    pub fn insert(&mut self, source: String, destination: String) -> (r: Result<(), ManifestError>)
        ensures
            r is Ok <==> !left_taken(old(self)@, source@) && !right_taken(old(self)@, destination@),
            r is Ok ==> final(self)@ == old(self)@.insert((source@, destination@)),
            r matches Err(ManifestError::PathCollision(d)) ==> d@ == destination@ && final(self)@ == old(self)@,
            final(self)@.finite(),
            is_bijective(final(self)@),
    {
        proof {
            use_type_invariant(&*self);
        }
        let ghost before = bimap_pairs(self.bimap);
        let mut bimap = bimap_new();
        std::mem::swap(&mut bimap, &mut self.bimap);
        let r = bimap_insert_no_overwrite(&mut bimap, source, destination);
        proof {
            if r is Ok {
                lemma_insert_keeps_bijective(before, source@, destination@);
            }
        }
        self.bimap = bimap;
        proof {
            use_type_invariant(&*self);
        }
        match r {
            Ok(()) => Ok(()),
            Err((_, d)) => Err(ManifestError::PathCollision(d)),
        }
    }

    /// The routes, each once, in an unspecified order.
    pub fn routes(&self) -> (r: Vec<Route>)
        ensures
            forall|i: int| 0 <= i < r@.len() ==> self@.contains((#[trigger] r@[i].source_spec(), r@[i].destination_spec())),
            forall|p: (Seq<char>, Seq<char>)| #[trigger] self@.contains(p)
                ==> exists|i: int| 0 <= i < r@.len() && (r@[i].source_spec(), r@[i].destination_spec()) == p,
            forall|i: int, j: int|
                0 <= i < j < r@.len() ==> (#[trigger] r@[i].source_spec(), r@[i].destination_spec()) != (#[trigger] r@[j].source_spec(), r@[j].destination_spec()),
    {
        let pairs = bimap_iter(&self.bimap);
        let mut routes: Vec<Route> = Vec::new();
        let mut i: usize = 0;
        while i < pairs.len()
            invariant
                i <= pairs@.len(),
                routes@.len() == i,
                forall|k: int| 0 <= k < i ==> (#[trigger] routes@[k]).source_spec() == pairs@[k].0@ && routes@[k].destination_spec() == pairs@[k].1@,
            decreases pairs@.len() - i,
        {
            let (s, d) = &pairs[i];
            routes.push(Route { source: s.clone(), destination: d.clone() });
            i = i + 1;
        }
        proof {
            assert forall|p: (Seq<char>, Seq<char>)| #[trigger] self@.contains(p) implies exists|i: int| 0 <= i < routes@.len() && (routes@[i].source_spec(), routes@[i].destination_spec()) == p by {
                let k = choose|k: int| 0 <= k < pairs@.len() && (pairs@[k].0@, pairs@[k].1@) == p;
                assert(routes@[k].source_spec() == pairs@[k].0@);
            }
            assert forall|i: int, j: int| 0 <= i < j < routes@.len() implies (#[trigger] routes@[i].source_spec(), routes@[i].destination_spec()) != (#[trigger] routes@[j].source_spec(), routes@[j].destination_spec()) by {
                assert((pairs@[i].0@, pairs@[i].1@) != (pairs@[j].0@, pairs@[j].1@));
            }
        }
        routes
    }
}

/// Adding a route whose source and destination are both new to a bijective
/// set of routes leaves it bijective.
pub proof fn lemma_insert_keeps_bijective(pairs: Set<(Seq<char>, Seq<char>)>, left: Seq<char>, right: Seq<char>)
    requires
        is_bijective(pairs),
        !left_taken(pairs, left),
        !right_taken(pairs, right),
    ensures
        is_bijective(pairs.insert((left, right))),
{
    let s = pairs.insert((left, right));
    assert forall|p: (Seq<char>, Seq<char>), q: (Seq<char>, Seq<char>)|
        s.contains(p) && s.contains(q) && (p.0 == q.0 || p.1 == q.1) implies p == q by {
        if p != (left, right) && q != (left, right) {
            assert(pairs.contains(p) && pairs.contains(q));
        } else if p == (left, right) && q != (left, right) {
            assert(pairs.contains((q.0, q.1)));
            if q.0 == left {
                assert(left_taken(pairs, left));
            } else {
                assert(right_taken(pairs, right));
            }
        } else if q == (left, right) && p != (left, right) {
            assert(pairs.contains((p.0, p.1)));
            if p.0 == left {
                assert(left_taken(pairs, left));
            } else {
                assert(right_taken(pairs, right));
            }
        }
    }
}

/// A manifest: the routes that an operation writes.
pub struct Manifest {
    router: Bijective,
}

impl View for Manifest {
    type V = Set<(Seq<char>, Seq<char>)>;

    closed spec fn view(&self) -> Set<(Seq<char>, Seq<char>)> {
        self.router@
    }
}

impl Default for Manifest {
    /// A manifest without routes.
    fn default() -> (r: Manifest)
        ensures
            r@ == Set::<(Seq<char>, Seq<char>)>::empty(),
    {
        Manifest { router: Bijective::new() }
    }
}

impl Manifest {
    /// A manifest without routes.
    pub fn new() -> (r: Manifest)
        ensures
            r@ == Set::<(Seq<char>, Seq<char>)>::empty(),
    {
        Manifest { router: Bijective::new() }
    }

    /// Adds the route from `source` to `destination`, unless either path is
    /// already routed: then the manifest is unchanged and the error names the
    /// destination.
    pub fn insert(&mut self, source: String, destination: String) -> (r: Result<(), ManifestError>)
        ensures
            r is Ok <==> !left_taken(old(self)@, source@) && !right_taken(old(self)@, destination@),
            r is Ok ==> final(self)@ == old(self)@.insert((source@, destination@)),
            r matches Err(ManifestError::PathCollision(d)) ==> d@ == destination@ && final(self)@ == old(self)@,
            final(self)@.finite(),
            is_bijective(final(self)@),
    {
        self.router.insert(source, destination)
    }

    /// The routes, each once, in an unspecified order.
    pub fn routes(&self) -> (r: Vec<Route>)
        ensures
            forall|i: int| 0 <= i < r@.len() ==> self@.contains((#[trigger] r@[i].source_spec(), r@[i].destination_spec())),
            forall|p: (Seq<char>, Seq<char>)| #[trigger] self@.contains(p)
                ==> exists|i: int| 0 <= i < r@.len() && (r@[i].source_spec(), r@[i].destination_spec()) == p,
            forall|i: int, j: int|
                0 <= i < j < r@.len() ==> (#[trigger] r@[i].source_spec(), r@[i].destination_spec()) != (#[trigger] r@[j].source_spec(), r@[j].destination_spec()),
    {
        self.router.routes()
    }
}

} // verus!
