use vstd::prelude::*;

verus! {

/// The final component of a path, as `Path::file_name` finds it.
pub uninterp spec fn final_component(path: Seq<char>) -> Option<Seq<char>>;

/// Relies on std::path::Path::file_name: the last component of a path,
/// which depends on the path's text alone; none for a root or `..`.
#[verifier::external_body]
fn file_name(path: &str) -> (r: Option<String>)
    ensures
        match r {
            Some(n) => final_component(path@) == Some(n@),
            None => final_component(path@) is None,
        },
{
    std::path::Path::new(path).file_name().and_then(|n| n.to_str()).map(|n| n.to_string())
}

/// The name an archive is stored under: the name given, else the
/// directory's own name with `.zip`, else `archive.zip`.
pub open spec fn archive_name_for(name: Option<Seq<char>>, dir_name: Option<Seq<char>>) -> Seq<char> {
    match name {
        Some(n) => n,
        None => match dir_name {
            Some(d) => d + ".zip"@,
            None => "archive.zip"@,
        },
    }
}

/// The name an archive is stored under, given the directory's own name.
pub fn archive_name_from(name: Option<&str>, dir_name: Option<&str>) -> (r: String)
    ensures
        r@ == archive_name_for(
            match name {
                Some(n) => Some(n@),
                None => None::<Seq<char>>,
            },
            match dir_name {
                Some(d) => Some(d@),
                None => None::<Seq<char>>,
            },
        ),
{
    match name {
        Some(n) => String::from_str(n),
        None => match dir_name {
            Some(d) => {
                let mut s = String::from_str(d);
                s.append(".zip");
                s
            },
            None => String::from_str("archive.zip"),
        },
    }
}

/// The name the archive of the directory at `path` is stored under.
pub fn archive_name(path: &str, name: Option<&str>) -> (r: String)
    ensures
        r@ == archive_name_for(
            match name {
                Some(n) => Some(n@),
                None => None::<Seq<char>>,
            },
            final_component(path@),
        ),
{
    let dir_name = file_name(path);
    match &dir_name {
        Some(d) => archive_name_from(name, Some(d.as_str())),
        None => archive_name_from(name, None),
    }
}

} // verus!
