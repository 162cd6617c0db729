//! Turns a matched path into the absolute directory whose entries complete it.

use vstd::prelude::*;

use tower_lsp::lsp_types::Url;

verus! {

/// The local path of a `file:` URI, by `Url::parse` and `Url::to_file_path`;
/// `None` when the text is no URL, names no local file, or the path is not
/// valid UTF-8.
pub uninterp spec fn uri_file_path(u: Seq<char>) -> Option<Seq<char>>;

/// Relies on `Url::parse` and `Url::to_file_path`.
#[verifier::external_body]
fn uri_to_file_path(u: &Vec<char>) -> (r: Option<Vec<char>>)
    ensures
        r is Some <==> uri_file_path(u@) is Some,
        r matches Some(p) ==> p@ == uri_file_path(u@)->0,
{
    let text: String = u.iter().collect();
    let url = Url::parse(&text).ok()?;
    let path = url.to_file_path().ok()?;
    Some(path.to_str()?.chars().collect())
}

/// The text starts with `file://`.
pub open spec fn is_file_uri(t: Seq<char>) -> bool {
    t.len() >= 7 && t.subrange(0, 7) == seq!['f', 'i', 'l', 'e', ':', '/', '/']
}

/// The text ends with `/`.
pub open spec fn ends_with_slash(t: Seq<char>) -> bool {
    t.len() > 0 && t.last() == '/'
}

pub open spec fn is_absolute(p: Seq<char>) -> bool {
    p.len() > 0 && p[0] == '/'
}

/// `p` with a first component that is exactly `~` replaced by `home`.
pub open spec fn expand_tilde(p: Seq<char>, home: Option<Seq<char>>) -> Seq<char> {
    match home {
        Some(h) => if p.len() > 0 && p[0] == '~' && (p.len() == 1 || p[1] == '/') {
            h + p.subrange(1, p.len() as int)
        } else {
            p
        },
        None => p,
    }
}

/// The offset of the last `/` before offset `n`, or -1.
pub open spec fn last_slash(p: Seq<char>, n: int) -> int
    decreases n,
{
    if n <= 0 {
        -1
    } else if p[n - 1] == '/' {
        n - 1
    } else {
        last_slash(p, n - 1)
    }
}

/// `p` up to and including its last `/` (empty if it has none).
pub open spec fn dir_part(p: Seq<char>) -> Seq<char> {
    p.subrange(0, last_slash(p, p.len() as int) + 1)
}

/// The stack of components after reading component `c`: empty and `.`
/// components are dropped, `..` drops the last one (if any).
pub open spec fn push_component(stack: Seq<Seq<char>>, c: Seq<char>) -> Seq<Seq<char>> {
    if c.len() == 0 || c == seq!['.'] {
        stack
    } else if c == seq!['.', '.'] {
        if stack.len() > 0 {
            stack.drop_last()
        } else {
            stack
        }
    } else {
        stack.push(c)
    }
}

/// The components read from the first `n` characters of `p`, and the
/// component still being read.
pub open spec fn scan(p: Seq<char>, n: int) -> (Seq<Seq<char>>, Seq<char>)
    decreases n,
{
    if n <= 0 {
        (Seq::empty(), Seq::empty())
    } else {
        let (st, cur) = scan(p, n - 1);
        if p[n - 1] == '/' {
            (push_component(st, cur), Seq::empty())
        } else {
            (st, cur.push(p[n - 1]))
        }
    }
}

/// The components of the lexically normalized path `p`.
pub open spec fn components(p: Seq<char>) -> Seq<Seq<char>> {
    let (st, cur) = scan(p, p.len() as int);
    push_component(st, cur)
}

/// `/a/b/c` for the components `a`, `b`, `c`.
pub open spec fn render(stack: Seq<Seq<char>>) -> Seq<char>
    decreases stack.len(),
{
    if stack.len() == 0 {
        Seq::empty()
    } else {
        render(stack.drop_last()) + seq!['/'] + stack.last()
    }
}

/// The absolute path of the components, `/` for none.
pub open spec fn render_dir(stack: Seq<Seq<char>>) -> Seq<char> {
    if stack.len() == 0 {
        seq!['/']
    } else {
        render(stack)
    }
}

/// The directory to list for `path`: after tilde expansion, a relative path
/// is taken from the directory of `doc_path`; when `trailing` (the matched
/// text ended with `/`) the path is the directory, else its last component
/// is a partial name and its parent is the directory. `None` when a relative
/// path has no absolute document path to start from.
pub open spec fn resolve_path_spec(
    path: Seq<char>,
    trailing: bool,
    doc_path: Option<Seq<char>>,
    home: Option<Seq<char>>,
) -> Option<Seq<char>> {
    let p = expand_tilde(path, home);
    let full = if is_absolute(p) {
        Some(p)
    } else {
        match doc_path {
            Some(d) => if is_absolute(d) {
                Some(dir_part(d) + p)
            } else {
                None
            },
            None => None,
        }
    };
    match full {
        Some(q) => Some(
            render_dir(
                components(
                    if trailing {
                        q
                    } else {
                        dir_part(q)
                    },
                ),
            ),
        ),
        None => None,
    }
}

pub open spec fn opt_view(o: Option<Vec<char>>) -> Option<Seq<char>> {
    match o {
        Some(v) => Some(v@),
        None => None,
    }
}

/// The directory to list for a matched token in the document at `doc_uri`:
/// a `file://` token is first decoded to its local path (failing when it
/// cannot be), and the document's URI is decoded likewise.
pub open spec fn resolve_token_spec(token: Seq<char>, doc_uri: Seq<char>, home: Option<Seq<char>>) -> Option<
    Seq<char>,
> {
    let path = if is_file_uri(token) {
        uri_file_path(token)
    } else {
        Some(token)
    };
    match path {
        Some(p) => resolve_path_spec(p, ends_with_slash(token), uri_file_path(doc_uri), home),
        None => None,
    }
}

fn concat(a: &Vec<char>, b: &Vec<char>, from: usize) -> (r: Vec<char>)
    requires
        from <= b@.len(),
    ensures
        r@ == a@ + b@.subrange(from as int, b@.len() as int),
{
    let mut r: Vec<char> = Vec::new();
    let mut i: usize = 0;
    while i < a.len()
        invariant
            i <= a@.len(),
            r@ == a@.subrange(0, i as int),
        decreases a@.len() - i,
    {
        r.push(a[i]);
        i = i + 1;
        assert(r@ =~= a@.subrange(0, i as int));
    }
    let mut j: usize = from;
    while j < b.len()
        invariant
            from <= j <= b@.len(),
            r@ == a@ + b@.subrange(from as int, j as int),
        decreases b@.len() - j,
    {
        r.push(b[j]);
        j = j + 1;
        assert(r@ =~= a@ + b@.subrange(from as int, j as int));
    }
    assert(a@.subrange(0, a@.len() as int) =~= a@);
    r
}

fn find_last_slash(p: &Vec<char>) -> (r: usize)
    ensures
        r == last_slash(p@, p@.len() as int) + 1,
        r <= p@.len(),
{
    let mut n: usize = p.len();
    while n > 0
        invariant
            n <= p@.len(),
            last_slash(p@, p@.len() as int) == last_slash(p@, n as int),
        decreases n,
    {
        if p[n - 1] == '/' {
            return n;
        }
        n = n - 1;
    }
    0
}

fn prefix(p: &Vec<char>, n: usize) -> (r: Vec<char>)
    requires
        n <= p@.len(),
    ensures
        r@ == p@.subrange(0, n as int),
{
    let r = concat(p, &Vec::new(), 0);
    let mut r = r;
    r.truncate(n);
    assert(r@ =~= p@.subrange(0, n as int));
    r
}

fn add_component(stack: &mut Vec<Vec<char>>, c: Vec<char>)
    ensures
        final(stack)@.map_values(|v: Vec<char>| v@) == push_component(
            old(stack)@.map_values(|v: Vec<char>| v@),
            c@,
        ),
{
    let ghost before = old(stack)@.map_values(|v: Vec<char>| v@);
    if c.len() == 0 || (c.len() == 1 && c[0] == '.') {
        assert(c.len() == 1 ==> c@ =~= seq!['.']);
        return;
    }
    assert(c@.len() != 0 && c@ != seq!['.']) by {
        if c@ == seq!['.'] {
            assert(c@[0] == '.');
        }
    }
    if c.len() == 2 && c[0] == '.' && c[1] == '.' {
        assert(c@ =~= seq!['.', '.']);
        if stack.len() > 0 {
            stack.pop();
            assert(stack@.map_values(|v: Vec<char>| v@) =~= before.drop_last());
        }
        return;
    }
    assert(c@ != seq!['.', '.']) by {
        if c@ == seq!['.', '.'] {
            assert(c@[0] == '.' && c@[1] == '.');
        }
    }
    stack.push(c);
    assert(stack@.map_values(|v: Vec<char>| v@) =~= before.push(c@));
}

fn normalize(p: &Vec<char>) -> (r: Vec<char>)
    ensures
        r@ == render_dir(components(p@)),
{
    let mut stack: Vec<Vec<char>> = Vec::new();
    let mut cur: Vec<char> = Vec::new();
    let mut i: usize = 0;
    assert(stack@.map_values(|v: Vec<char>| v@) =~= scan(p@, 0).0);
    while i < p.len()
        invariant
            i <= p@.len(),
            stack@.map_values(|v: Vec<char>| v@) == scan(p@, i as int).0,
            cur@ == scan(p@, i as int).1,
        decreases p@.len() - i,
    {
        if p[i] == '/' {
            let c = cur;
            cur = Vec::new();
            add_component(&mut stack, c);
        } else {
            cur.push(p[i]);
        }
        i = i + 1;
    }
    add_component(&mut stack, cur);
    let ghost st = stack@.map_values(|v: Vec<char>| v@);
    if stack.len() == 0 {
        return vec!['/'];
    }
    let mut out: Vec<char> = Vec::new();
    let mut k: usize = 0;
    assert(st.subrange(0, 0) =~= Seq::<Seq<char>>::empty());
    while k < stack.len()
        invariant
            k <= stack@.len(),
            st == stack@.map_values(|v: Vec<char>| v@),
            out@ == render(st.subrange(0, k as int)),
        decreases stack@.len() - k,
    {
        assert(st.subrange(0, k + 1).drop_last() =~= st.subrange(0, k as int));
        out.push('/');
        out = concat(&out, &stack[k], 0);
        assert(stack[k as int]@.subrange(0, stack[k as int]@.len() as int) =~= stack[k as int]@);
        k = k + 1;
    }
    assert(st.subrange(0, st.len() as int) =~= st);
    out
}

/// The directory to list for the (decoded) path `path`; see
/// `resolve_path_spec`.
pub fn resolve_path(
    path: &Vec<char>,
    trailing: bool,
    doc_path: &Option<Vec<char>>,
    home: &Option<Vec<char>>,
) -> (r: Option<Vec<char>>)
    ensures
        opt_view(r) == resolve_path_spec(path@, trailing, opt_view(*doc_path), opt_view(*home)),
{
    let expanded: Vec<char> = match home {
        Some(h) => {
            if path.len() > 0 && path[0] == '~' && (path.len() == 1 || path[1] == '/') {
                concat(h, path, 1)
            } else {
                concat(path, &Vec::new(), 0)
            }
        },
        None => concat(path, &Vec::new(), 0),
    };
    assert(path@.subrange(0, path@.len() as int) =~= path@);
    let full: Vec<char> = if expanded.len() > 0 && expanded[0] == '/' {
        expanded
    } else {
        match doc_path {
            Some(d) => {
                if d.len() > 0 && d[0] == '/' {
                    let cut = find_last_slash(d);
                    let dir = prefix(d, cut);
                    concat(&dir, &expanded, 0)
                } else {
                    return None;
                }
            },
            None => {
                return None;
            },
        }
    };
    assert(expanded@.subrange(0, expanded@.len() as int) =~= expanded@);
    let target = if trailing {
        full
    } else {
        let cut = find_last_slash(&full);
        prefix(&full, cut)
    };
    Some(normalize(&target))
}

/// The directory to list for the matched `token` in the document whose URI
/// is `doc_uri`; see `resolve_token_spec`.
pub fn resolve_directory(token: &Vec<char>, doc_uri: &Vec<char>, home: &Option<Vec<char>>) -> (r:
    Option<Vec<char>>)
    ensures
        opt_view(r) == resolve_token_spec(token@, doc_uri@, opt_view(*home)),
{
    let file_scheme = token.len() >= 7 && token[0] == 'f' && token[1] == 'i' && token[2] == 'l'
        && token[3] == 'e' && token[4] == ':' && token[5] == '/' && token[6] == '/';
    assert(file_scheme == is_file_uri(token@)) by {
        if token@.len() >= 7 {
            let pre = token@.subrange(0, 7);
            if file_scheme {
                assert(pre =~= seq!['f', 'i', 'l', 'e', ':', '/', '/']);
            }
            if pre == seq!['f', 'i', 'l', 'e', ':', '/', '/'] {
                assert(pre[0] == 'f' && pre[1] == 'i' && pre[2] == 'l' && pre[3] == 'e' && pre[4]
                    == ':' && pre[5] == '/' && pre[6] == '/');
            }
        }
    }
    let path = if file_scheme {
        match uri_to_file_path(token) {
            Some(p) => p,
            None => {
                return None;
            },
        }
    } else {
        concat(token, &Vec::new(), 0)
    };
    assert(token@.subrange(0, token@.len() as int) =~= token@);
    let trailing = token.len() > 0 && token[token.len() - 1] == '/';
    let doc_path = uri_to_file_path(doc_uri);
    resolve_path(&path, trailing, &doc_path, home)
}

} // verus!
