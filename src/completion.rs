//! From a cursor in an open document to the directory whose entries complete
//! the path typed before it.

use vstd::prelude::*;

use crate::matcher::{path_suffix, path_token};
use crate::resolve::{opt_view, resolve_directory, resolve_token_spec};
use crate::store::{DocumentStore, StoreError};
use crate::text::{line_start, offset_of, Position};

verus! {

/// The characters of `s`.
pub fn chars_of(s: &str) -> (r: Vec<char>)
    ensures
        r@ == s@,
{
    let n = s.unicode_len();
    let mut r: Vec<char> = Vec::new();
    let mut i: usize = 0;
    while i < n
        invariant
            n == s@.len(),
            i <= n,
            r@ == s@.subrange(0, i as int),
        decreases n - i,
    {
        r.push(s.get_char(i));
        i = i + 1;
        assert(r@ =~= s@.subrange(0, i as int));
    }
    assert(s@.subrange(0, n as int) =~= s@);
    r
}

/// The directory to list for a line prefix typed in the document `doc_uri`;
/// a bare file name with no `/` is not taken for a path here.
pub open spec fn directory_for_line(line: Seq<char>, doc_uri: Seq<char>, home: Option<Seq<char>>) -> Option<
    Seq<char>,
> {
    match path_token(line, false) {
        Some(t) => resolve_token_spec(t, doc_uri, home),
        None => None,
    }
}

/// The directory whose entries complete the path typed before `pos` in the
/// document `id` (`Ok(None)` when no path is typed there or it cannot be
/// resolved); `home` is the user's home directory, if known.
pub fn completion_directory(
    store: &DocumentStore,
    id: &String,
    pos: Position,
    home: &Option<Vec<char>>,
) -> (r: Result<Option<Vec<char>>, StoreError>)
    requires
        store.wf(),
    ensures
        !store@.contains_key(id@) ==> r == Err::<Option<Vec<char>>, StoreError>(
            StoreError::UnknownDocument,
        ),
        store@.contains_key(id@) ==> match offset_of(
            store@[id@],
            pos.line as nat,
            pos.character as nat,
        ) {
            Some(o) => r matches Ok(d) && opt_view(d) == directory_for_line(
                store@[id@].subrange(line_start(store@[id@], pos.line as nat), o),
                id@,
                opt_view(*home),
            ),
            None => r == Err::<Option<Vec<char>>, StoreError>(StoreError::MalformedPosition),
        },
{
    let line = store.line_until_cursor(id, pos)?;
    match path_suffix(&line, false) {
        None => Ok(None),
        Some(token) => {
            let uri = chars_of(id.as_str());
            Ok(resolve_directory(&token, &uri, home))
        },
    }
}

} // verus!
