use vstd::prelude::*;

verus! {

/// The components of a path, each as its text: what path equality compares.
pub uninterp spec fn path_components(path: Seq<char>) -> Seq<Seq<char>>;

/// The parent of a path, as the platform's path rules give it.
pub uninterp spec fn parent_path(path: Seq<char>) -> Option<Seq<char>>;

/// Two paths name the same directory: they have the same components, so
/// `/a/b`, `/a/b/` and `/a//b` are one directory.
pub open spec fn same_dir(a: Seq<char>, b: Seq<char>) -> bool {
    path_components(a) == path_components(b)
}

/// Relies on std::path::Path::components, which yields the components that
/// `Path`'s equality compares; each is handed back as its text.
#[verifier::external_body]
pub(crate) fn components_of(path: &String) -> (r: Vec<String>)
    ensures
        r@.map_values(|c: String| c@) == path_components(path@),
{
    let mut r = Vec::new();
    for c in std::path::Path::new(path.as_str()).components() {
        r.push(c.as_os_str().to_string_lossy().into_owned());
    }
    r
}

/// Relies on std::path::Path::parent: the path without its final component,
/// which is shorter than the path and has its components but the last, or
/// None where the path ends in a root or a prefix.
#[verifier::external_body]
pub(crate) fn parent_of(path: &String) -> (r: Option<String>)
    ensures
        r is None <==> parent_path(path@) is None,
        r matches Some(q) ==> parent_path(path@) == Some(q@) && q@.len() < path@.len()
            && path_components(path@).len() > 0 && path_components(q@) == path_components(
            path@,
        ).drop_last(),
{
    match std::path::Path::new(path.as_str()).parent() {
        Some(p) => Some(p.to_string_lossy().into_owned()),
        None => None,
    }
}

/// Whether two component lists are equal, text by text.
pub(crate) fn same_components(a: &Vec<String>, b: &Vec<String>) -> (r: bool)
    ensures
        r == (a@.map_values(|c: String| c@) == b@.map_values(|c: String| c@)),
{
    if a.len() != b.len() {
        assert(a@.map_values(|c: String| c@).len() != b@.map_values(|c: String| c@).len());
        return false;
    }
    let mut i: usize = 0;
    while i < a.len()
        invariant
            a@.len() == b@.len(),
            i <= a@.len(),
            forall|j: int| 0 <= j < i ==> a@[j]@ == b@[j]@,
        decreases a@.len() - i,
    {
        if a[i] != b[i] {
            assert(a@.map_values(|c: String| c@)[i as int] != b@.map_values(|c: String| c@)[i as int]);
            return false;
        }
        i = i + 1;
    }
    assert(a@.map_values(|c: String| c@) =~= b@.map_values(|c: String| c@));
    true
}

} // verus!
