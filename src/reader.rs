use vstd::prelude::*;

verus! {

/// Why a file name is refused.
#[derive(Clone, Debug, PartialEq, Eq)]
pub enum FileExtensionError {
    /// The file has no extension.
    Missing,
    /// The file's extension is not in the supported list.
    Unsupported(String),
    /// The supported extensions list is empty.
    SupportedListEmpty,
}

/// The extension of the path `path`, as `std::path::Path::extension` finds it.
pub uninterp spec fn path_extension(path: Seq<char>) -> Option<Seq<char>>;

/// Relies on `std::path::Path::extension`: the text after the final '.' of
/// the file name, if any. The result depends on the path's text alone; a
/// `&str` path's extension is always valid text.
#[verifier::external_body]
fn path_extension_of(filename: &str) -> (r: Option<&str>)
    ensures
        match r {
            Some(e) => path_extension(filename@) == Some(e@),
            None => path_extension(filename@) is None,
        },
{
    std::path::Path::new(filename).extension().and_then(|s| s.to_str())
}

/// The extension of `filename`, if it has one.
pub fn get_file_extension(filename: &str) -> (r: Option<&str>)
    ensures
        match r {
            Some(e) => path_extension(filename@) == Some(e@),
            None => path_extension(filename@) is None,
        },
{
    path_extension_of(filename)
}

/// `ext` is one of `extensions`.
pub open spec fn listed(ext: Seq<char>, extensions: Seq<&str>) -> bool {
    exists|i: int| 0 <= i < extensions.len() && extensions[i]@ == ext
}

/// Decides on a file's extension, `file_ext`, found beforehand: Ok(()) if it
/// is in the non-empty list `extensions`.
pub fn check_extension(file_ext: Option<&str>, extensions: &[&str]) -> (r: Result<
    (),
    FileExtensionError,
>)
    ensures
        extensions@.len() == 0 ==> r == Err::<(), FileExtensionError>(
            FileExtensionError::SupportedListEmpty,
        ),
        extensions@.len() > 0 && file_ext is None ==> r == Err::<(), FileExtensionError>(
            FileExtensionError::Missing,
        ),
        extensions@.len() > 0 && file_ext is Some ==> (r is Ok <==> listed(
            file_ext->0@,
            extensions@,
        )),
        extensions@.len() > 0 && file_ext is Some && !listed(file_ext->0@, extensions@) ==> (
        r matches Err(FileExtensionError::Unsupported(s)) && s@ == file_ext->0@),
{
    if extensions.len() == 0 {
        return Err(FileExtensionError::SupportedListEmpty);
    }
    let ext = match file_ext {
        Some(ext) => ext,
        None => return Err(FileExtensionError::Missing),
    };
    let wanted = ext.to_owned();
    let mut i: usize = 0;
    while i < extensions.len()
        invariant
            i <= extensions@.len(),
            extensions@.len() > 0,
            file_ext matches Some(e) && e@ == ext@,
            wanted@ == ext@,
            forall|j: int| 0 <= j < i ==> extensions@[j]@ != ext@,
        decreases extensions.len() - i,
    {
        let candidate = extensions[i].to_owned();
        if candidate == wanted {
            assert(extensions@[i as int]@ == ext@);
            return Ok(());
        }
        i = i + 1;
    }
    Err(FileExtensionError::Unsupported(wanted))
}

/// Returns Ok(()) if the given file has an extension that is contained in
/// the given extensions list.
pub fn check_file_extension(filename: &str, extensions: &[&str]) -> (r: Result<
    (),
    FileExtensionError,
>)
    ensures
        extensions@.len() == 0 ==> r == Err::<(), FileExtensionError>(
            FileExtensionError::SupportedListEmpty,
        ),
        extensions@.len() > 0 && path_extension(filename@) is None ==> r == Err::<
            (),
            FileExtensionError,
        >(FileExtensionError::Missing),
        extensions@.len() > 0 && path_extension(filename@) is Some ==> (r is Ok <==> listed(
            path_extension(filename@)->0,
            extensions@,
        )),
        extensions@.len() > 0 && path_extension(filename@) is Some && !listed(
            path_extension(filename@)->0,
            extensions@,
        ) ==> (r matches Err(FileExtensionError::Unsupported(s)) && s@ == path_extension(
            filename@,
        )->0),
{
    if extensions.len() == 0 {
        return Err(FileExtensionError::SupportedListEmpty);
    }
    check_extension(get_file_extension(filename), extensions)
}

} // verus!
