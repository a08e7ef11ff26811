use vstd::prelude::*;

verus! {

/// A directory name that a downward search does not enter.
pub struct ExclusionSpec {
    pub directory_name: String,
}

/// The names of a sequence of exclusions.
pub open spec fn exclusion_names(v: Seq<ExclusionSpec>) -> Seq<Seq<char>> {
    v.map_values(|e: ExclusionSpec| e.directory_name@)
}

/// Whether `name` is one of the excluded names.
pub open spec fn excluded(name: Seq<char>, names: Seq<Seq<char>>) -> bool {
    names.contains(name)
}

/// The directories skipped by default: build output and installed packages.
pub fn default_exclusions() -> (r: Vec<ExclusionSpec>)
    ensures
        exclusion_names(r@) == seq!["target"@, "node_modules"@, ".next"@],
{
    let r = vec![
        ExclusionSpec { directory_name: String::from_str("target") },
        ExclusionSpec { directory_name: String::from_str("node_modules") },
        ExclusionSpec { directory_name: String::from_str(".next") },
    ];
    assert(exclusion_names(r@) =~= seq!["target"@, "node_modules"@, ".next"@]);
    r
}

/// Whether a directory called `directory_name` is excluded.
pub fn is_excluded(directory_name: &String, exclusions: &Vec<ExclusionSpec>) -> (b: bool)
    ensures
        b == excluded(directory_name@, exclusion_names(exclusions@)),
{
    let mut i: usize = 0;
    while i < exclusions.len()
        invariant
            i <= exclusions.len(),
            forall|j: int| 0 <= j < i ==> exclusions@[j].directory_name@ != directory_name@,
        decreases exclusions.len() - i,
    {
        if *directory_name == exclusions[i].directory_name {
            assert(exclusion_names(exclusions@)[i as int] == directory_name@);
            return true;
        }
        i = i + 1;
    }
    assert forall|j: int| 0 <= j < exclusion_names(exclusions@).len() implies
        exclusion_names(exclusions@)[j] != directory_name@ by {
        assert(exclusion_names(exclusions@)[j] == exclusions@[j].directory_name@);
    }
    false
}

} // verus!
