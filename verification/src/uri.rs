//! Request and upstream URIs, parsed and built by the `http` crate.
use vstd::prelude::*;

verus! {

/// The parts of a URI that the proxy reads.
pub struct UriView {
    pub scheme: Option<Seq<char>>,
    pub authority: Option<Seq<char>>,
    pub path_and_query: Option<Seq<char>>,
    pub query: Option<Seq<char>>,
    pub text: Seq<char>,
}

/// What `http::Uri` makes of a string: its parts, or nothing where the
/// string is no URI.
pub uninterp spec fn parsed_uri(text: Seq<char>) -> Option<UriView>;

/// The message of the error with which the builder refuses its parts.
pub uninterp spec fn uri_error(
    scheme: Seq<char>,
    authority: Seq<char>,
    path_and_query: Seq<char>,
) -> Seq<char>;

/// A character that may stand in a scheme.
pub open spec fn scheme_char(c: char) -> bool {
    ||| 'a' <= c <= 'z'
    ||| 'A' <= c <= 'Z'
    ||| '0' <= c <= '9'
    ||| c == '+' || c == '-' || c == '.' || c == '~'
}

/// A text that `http::uri::Scheme` accepts.
pub open spec fn is_scheme(text: Seq<char>) -> bool {
    &&& text.len() <= 64
    &&& forall|i: int| #![trigger text[i]] 0 <= i < text.len() ==> scheme_char(text[i])
}

/// Whether `http::uri::Authority` accepts a string.
pub uninterp spec fn is_authority(text: Seq<char>) -> bool;

/// Whether `http::uri::PathAndQuery` accepts a string.
pub uninterp spec fn is_path_and_query(text: Seq<char>) -> bool;

/// The part of a path and query that precedes a fragment.
pub open spec fn before_fragment(s: Seq<char>) -> Seq<char>
    decreases s.len(),
{
    if s.len() == 0 || s[0] == '#' {
        Seq::empty()
    } else {
        seq![s[0]] + before_fragment(s.drop_first())
    }
}

/// A path and query as a URI keeps it: without a fragment, and never empty.
pub open spec fn kept_path(s: Seq<char>) -> Seq<char> {
    if before_fragment(s).len() == 0 {
        seq!['/']
    } else {
        before_fragment(s)
    }
}

/// The part of a path and query that precedes its first question mark.
pub open spec fn path_part(s: Seq<char>) -> Seq<char>
    decreases s.len(),
{
    if s.len() == 0 || s[0] == '?' {
        Seq::empty()
    } else {
        seq![s[0]] + path_part(s.drop_first())
    }
}

/// What follows the first question mark of a path and query, if it has one.
pub open spec fn query_part(s: Seq<char>) -> Option<Seq<char>>
    decreases s.len(),
{
    if s.len() == 0 {
        None
    } else if s[0] == '?' {
        Some(s.drop_first())
    } else {
        query_part(s.drop_first())
    }
}

/// A path and query as a URI is written with it: the root path stands for an
/// empty one before a query.
pub open spec fn written_path(s: Seq<char>) -> Seq<char> {
    let path = if path_part(s).len() == 0 {
        seq!['/']
    } else {
        path_part(s)
    };
    match query_part(s) {
        Some(query) => path + seq!['?'] + query,
        None => path,
    }
}

/// The URI that has these parts. Its query is that of its path and query, and
/// in writing its parts follow one another.
pub open spec fn assembled(
    scheme: Option<Seq<char>>,
    authority: Option<Seq<char>>,
    path_and_query: Option<Seq<char>>,
) -> UriView {
    let start = match scheme {
        Some(s) => s + seq![':', '/', '/'],
        None => Seq::empty(),
    };
    let middle = match authority {
        Some(a) => a,
        None => Seq::empty(),
    };
    UriView {
        scheme,
        authority,
        path_and_query,
        query: match path_and_query {
            Some(p) => query_part(p),
            None => None,
        },
        text: start + middle + match path_and_query {
            Some(p) => written_path(p),
            None => Seq::empty(),
        },
    }
}

/// The parts of a URI belong together and can be put into another one.
pub open spec fn reusable(uri: UriView) -> bool {
    &&& uri == assembled(uri.scheme, uri.authority, uri.path_and_query)
    &&& uri.scheme matches Some(s) ==> is_scheme(s)
    &&& uri.authority matches Some(a) ==> is_authority(a) && crate::text::is_text(a)
    &&& uri.path_and_query matches Some(p) ==> p.len() > 0 && is_path_and_query(p)
        && before_fragment(p) == p
}

pub open spec fn text_of(s: Option<String>) -> Option<Seq<char>> {
    match s {
        Some(t) => Some(t@),
        None => None,
    }
}

/// The parts of a URI as owned strings.
#[derive(Debug, PartialEq, Eq)]
pub struct UriParts {
    pub scheme: Option<String>,
    pub authority: Option<String>,
    pub path_and_query: Option<String>,
    pub query: Option<String>,
    pub text: String,
}

impl View for UriParts {
    type V = UriView;

    open spec fn view(&self) -> UriView {
        UriView {
            scheme: text_of(self.scheme),
            authority: text_of(self.authority),
            path_and_query: text_of(self.path_and_query),
            query: text_of(self.query),
            text: self.text@,
        }
    }
}

/// `str::parse::<http::Uri>`, with the parts of the URI taken out of it by
/// `scheme_str`, `authority`, `path_and_query`, `query` and `to_string`.
/// What a URI yields as one of its parts, the type of that part accepts: a
/// scheme of at most 64 letters, digits and the like, an authority of visible
/// ASCII, and a path without a fragment. The query is what follows the first
/// question mark of the path and query, and the URI is written as its scheme,
/// its authority, its path and its query in turn.
#[verifier::external_body]
fn parse_parts(text: &str) -> (parts: Option<UriParts>)
    ensures
        parts is Some <==> parsed_uri(text@) is Some,
        parts matches Some(p) ==> parsed_uri(text@) == Some(p@) && reusable(p@),
{
    let uri = text.parse::<hyper::Uri>().ok()?;
    Some(UriParts {
        scheme: uri.scheme_str().map(str::to_owned),
        authority: uri.authority().map(|a| a.as_str().to_owned()),
        path_and_query: uri.path_and_query().map(|p| p.as_str().to_owned()),
        query: uri.query().map(str::to_owned),
        text: uri.to_string(),
    })
}

/// `http::Uri::builder` with `scheme`, `authority`, `path_and_query` and
/// `build`. It succeeds when the type of each part accepts the string given
/// for it, as the root path always is, and the URI then has these parts, with
/// the query and the writing that belong to them. An empty path, for which the builder makes an exception, is left out.
#[verifier::external_body]
fn build_parts(scheme: &str, authority: &str, path_and_query: &str) -> (parts: Result<
    UriParts,
    String,
>)
    requires
        path_and_query@.len() > 0,
    ensures
        parts is Ok <==> (is_scheme(scheme@) && is_authority(authority@) && (path_and_query@
            == seq!['/'] || is_path_and_query(path_and_query@))),
        parts matches Ok(p) ==> reusable(p@) && p@ == assembled(
            Some(scheme@),
            Some(authority@),
            Some(kept_path(path_and_query@)),
        ),
        parts matches Err(e) ==> e@ == uri_error(scheme@, authority@, path_and_query@),
{
    let builder = hyper::Uri::builder().scheme(scheme).authority(authority);
    let uri = builder.path_and_query(path_and_query).build().map_err(|e| e.to_string())?;
    Ok(UriParts {
        scheme: uri.scheme_str().map(str::to_owned),
        authority: uri.authority().map(|a| a.as_str().to_owned()),
        path_and_query: uri.path_and_query().map(|p| p.as_str().to_owned()),
        query: uri.query().map(str::to_owned),
        text: uri.to_string(),
    })
}

/// A URI that has been parsed or built.
#[derive(Debug, PartialEq, Eq)]
pub struct Uri {
    parts: UriParts,
}

impl View for Uri {
    type V = UriView;

    closed spec fn view(&self) -> UriView {
        self.parts@
    }
}

fn copy_text(s: &Option<String>) -> (r: Option<String>)
    ensures
        text_of(r) == text_of(*s),
{
    match s {
        Some(t) => Some(t.clone()),
        None => None,
    }
}

fn borrow_text(s: &Option<String>) -> (r: Option<&str>)
    ensures
        r is Some <==> s is Some,
        r matches Some(t) ==> text_of(*s) == Some(t@),
{
    match s {
        Some(t) => Some(t.as_str()),
        None => None,
    }
}

impl Clone for Uri {
    fn clone(&self) -> (r: Self)
        ensures
            r@ == self@,
    {
        proof {
            use_type_invariant(self);
        }
        let parts = UriParts {
            scheme: copy_text(&self.parts.scheme),
            authority: copy_text(&self.parts.authority),
            path_and_query: copy_text(&self.parts.path_and_query),
            query: copy_text(&self.parts.query),
            text: self.parts.text.clone(),
        };
        assert(parts@ == self.parts@);
        Uri { parts }
    }
}

impl Uri {
    #[verifier::type_invariant]
    spec fn well_formed(self) -> bool {
        reusable(self.parts@)
    }

    /// Parses a URI.
    pub fn parse(text: &str) -> (r: Option<Self>)
        ensures
            r is Some <==> parsed_uri(text@) is Some,
            r matches Some(u) ==> parsed_uri(text@) == Some(u@) && reusable(u@),
    {
        match parse_parts(text) {
            Some(parts) => Some(Uri { parts }),
            None => None,
        }
    }

    /// Puts a URI together out of a scheme and an authority and the path and
    /// query of another URI, or of the root path where that one has none. The
    /// query stays the same.
    pub fn retarget(&self, scheme: &str, authority: &str) -> (r: Result<Self, String>)
        ensures
            r is Ok <==> is_scheme(scheme@) && is_authority(authority@),
            r matches Ok(u) ==> reusable(u@) && u@.query == self@.query && u@ == assembled(
                Some(scheme@),
                Some(authority@),
                Some(self@.path_or_root()),
            ),
            r matches Ok(u) ==> u@.scheme == Some(scheme@) && u@.authority == Some(authority@) && (
            self@.path_and_query is Some ==> u@.path_and_query == self@.path_and_query) && (
            self@.path_and_query is None ==> u@.path_and_query == Some(seq!['/'])),
            r matches Err(e) ==> e@ == uri_error(scheme@, authority@, self@.path_or_root()),
    {
        proof {
            use_type_invariant(self);
            reveal_strlit("/");
            assert("/"@ =~= seq!['/']);
            reveal_with_fuel(before_fragment, 2);
            assert(before_fragment(seq!['/']) =~= seq!['/']);
            reveal_with_fuel(query_part, 2);
        }
        let path = match borrow_text(&self.parts.path_and_query) {
            Some(p) => p,
            None => "/",
        };
        match build_parts(scheme, authority, path) {
            Ok(parts) => Ok(Uri { parts }),
            Err(e) => Err(e),
        }
    }

    /// The scheme, if the URI has one.
    pub fn scheme(&self) -> (r: Option<&str>)
        ensures
            r is Some <==> self@.scheme is Some,
            r matches Some(t) ==> self@.scheme == Some(t@) && is_scheme(t@),
    {
        proof {
            use_type_invariant(self);
        }
        borrow_text(&self.parts.scheme)
    }

    /// The authority, if the URI has one.
    pub fn authority(&self) -> (r: Option<&str>)
        ensures
            r is Some <==> self@.authority is Some,
            r matches Some(t) ==> self@.authority == Some(t@) && is_authority(t@)
                && crate::text::is_text(t@),
    {
        proof {
            use_type_invariant(self);
        }
        borrow_text(&self.parts.authority)
    }

    /// The path with its query, if the URI has one.
    pub fn path_and_query(&self) -> (r: Option<&str>)
        ensures
            r is Some <==> self@.path_and_query is Some,
            r matches Some(t) ==> self@.path_and_query == Some(t@),
    {
        borrow_text(&self.parts.path_and_query)
    }

    /// The query, if the URI has one.
    pub fn query(&self) -> (r: Option<&str>)
        ensures
            r is Some <==> self@.query is Some,
            r matches Some(t) ==> self@.query == Some(t@),
    {
        borrow_text(&self.parts.query)
    }

    /// The URI as one string.
    pub fn text(&self) -> (r: &str)
        ensures
            r@ == self@.text,
    {
        self.parts.text.as_str()
    }
}

impl UriView {
    /// The path with its query, or the root path where there is none.
    pub open spec fn path_or_root(self) -> Seq<char> {
        match self.path_and_query {
            Some(p) => p,
            None => seq!['/'],
        }
    }
}

proof fn lemma_question_mark(s: Seq<char>)
    ensures
        s.contains('?') ==> query_part(s) is Some && s == path_part(s) + seq!['?'] + query_part(
            s,
        )->Some_0,
        !s.contains('?') ==> query_part(s) is None && path_part(s) == s,
        !path_part(s).contains('?'),
    decreases s.len(),
{
    if s.len() > 0 && s[0] != '?' {
        let t = s.drop_first();
        lemma_question_mark(t);
        assert(s =~= seq![s[0]] + t);
        if s.contains('?') {
            let i = choose|i: int| 0 <= i < s.len() && s[i] == '?';
            assert(t[i - 1] == '?');
            assert(t.contains('?'));
            assert(s =~= path_part(s) + seq!['?'] + query_part(s)->Some_0);
        } else {
            if t.contains('?') {
                let i = choose|i: int| 0 <= i < t.len() && t[i] == '?';
                assert(s[i + 1] == '?');
            }
        }
        if path_part(s).contains('?') {
            let i = choose|i: int| 0 <= i < path_part(s).len() && path_part(s)[i] == '?';
            assert(path_part(t)[i - 1] == '?');
        }
    } else if s.len() > 0 {
        assert(s[0] == '?');
        assert(s.contains('?'));
        assert(s =~= seq!['?'] + s.drop_first());
        assert(s =~= path_part(s) + seq!['?'] + query_part(s)->Some_0);
    }
}

/// The first question mark parts the path from the query: without one there
/// is no query, and the path is all there is.
pub proof fn law_question_mark_parts_path_and_query(path: Seq<char>, query: Seq<char>)
    requires
        !path.contains('?'),
    ensures
        query_part(path) is None,
        path_part(path) == path,
        query_part(path + seq!['?'] + query) == Some(query),
        path_part(path + seq!['?'] + query) == path,
    decreases path.len(),
{
    lemma_question_mark(path);
    let s = path + seq!['?'] + query;
    if path.len() == 0 {
        assert(s[0] == '?');
        assert(s.drop_first() =~= query);
        assert(path_part(s) =~= path);
    } else {
        assert(path[0] != '?') by {
            if path[0] == '?' {
                assert(path.contains('?'));
            }
        }
        let rest = path.drop_first();
        assert(!rest.contains('?')) by {
            if rest.contains('?') {
                let i = choose|i: int| 0 <= i < rest.len() && rest[i] == '?';
                assert(path[i + 1] == '?');
            }
        }
        law_question_mark_parts_path_and_query(rest, query);
        assert(s.drop_first() =~= rest + seq!['?'] + query);
        assert(path_part(s) =~= path);
    }
}

/// The first hash ends what a URI keeps of a path and query, of which the
/// root path stands for nothing.
pub proof fn law_fragment_is_not_kept(path: Seq<char>, fragment: Seq<char>)
    requires
        !path.contains('#'),
    ensures
        before_fragment(path) == path,
        before_fragment(path + seq!['#'] + fragment) == path,
        path.len() > 0 ==> kept_path(path) == path && kept_path(path + seq!['#'] + fragment)
            == path,
        path.len() == 0 ==> kept_path(path) == seq!['/'] && kept_path(
            path + seq!['#'] + fragment,
        ) == seq!['/'],
    decreases path.len(),
{
    let s = path + seq!['#'] + fragment;
    if path.len() == 0 {
        assert(s[0] == '#');
        assert(before_fragment(path) =~= path);
        assert(before_fragment(s) =~= path);
    } else {
        assert(path[0] != '#') by {
            if path[0] == '#' {
                assert(path.contains('#'));
            }
        }
        let rest = path.drop_first();
        assert(!rest.contains('#')) by {
            if rest.contains('#') {
                let i = choose|i: int| 0 <= i < rest.len() && rest[i] == '#';
                assert(path[i + 1] == '#');
            }
        }
        law_fragment_is_not_kept(rest, fragment);
        assert(s.drop_first() =~= rest + seq!['#'] + fragment);
        assert(before_fragment(s) =~= path);
        assert(before_fragment(path) =~= path);
    }
}

/// A URI keeps the parts that it is put together of. In writing, the scheme
/// is parted from the authority by a colon and two slashes, and the path and
/// query follow as they are, but for a slash where they begin with the query.
pub proof fn law_assembled_uri_keeps_its_parts(
    scheme: Seq<char>,
    authority: Seq<char>,
    path: Seq<char>,
)
    ensures
        ({
            let whole = assembled(Some(scheme), Some(authority), Some(path));
            let local = assembled(None, None, Some(path));
            let bare = assembled(None, Some(authority), None);
            let start = scheme + "://"@ + authority;
            &&& whole.scheme == Some(scheme) && whole.authority == Some(authority)
                && whole.path_and_query == Some(path)
            &&& local.scheme is None && local.authority is None && local.path_and_query == Some(
                path,
            )
            &&& bare.scheme is None && bare.authority == Some(authority)
                && bare.path_and_query is None && bare.query is None && bare.text == authority
            &&& path.len() > 0 && path[0] != '?' ==> whole.text == start + path && local.text
                == path
            &&& path.len() > 0 && path[0] == '?' ==> whole.text == start + "/"@ + path
                && local.text == "/"@ + path
            &&& !path.contains('?') ==> whole.query is None && local.query is None
            &&& forall|before: Seq<char>, query: Seq<char>|
                path == #[trigger] (before + seq!['?'] + query) && !before.contains('?')
                    ==> whole.query == Some(query) && local.query == Some(query)
        }),
{
    reveal_strlit("://");
    reveal_strlit("/");
    assert("://"@ =~= seq![':', '/', '/']);
    assert("/"@ =~= seq!['/']);
    let whole = assembled(Some(scheme), Some(authority), Some(path));
    let local = assembled(None, None, Some(path));
    let bare = assembled(None, Some(authority), None);
    let start = scheme + "://"@ + authority;
    lemma_question_mark(path);
    assert(bare.text =~= authority);
    if path.len() > 0 {
        if path[0] == '?' {
            assert(path.contains('?'));
            assert(path_part(path).len() == 0);
            assert(written_path(path) =~= "/"@ + path);
        } else {
            assert(path_part(path).len() > 0);
            if path.contains('?') {
                assert(written_path(path) =~= path);
            } else {
                assert(written_path(path) =~= path);
            }
        }
        assert(local.text =~= written_path(path));
        assert(whole.text =~= start + written_path(path));
        if path[0] == '?' {
            assert(whole.text =~= start + "/"@ + path);
        }
    }
    assert forall|before: Seq<char>, query: Seq<char>|
        path == #[trigger] (before + seq!['?'] + query) && !before.contains('?') implies whole.query
        == Some(query) && local.query == Some(query) by {
        law_question_mark_parts_path_and_query(before, query);
    }
}

/// A URI that is given another scheme and authority is asked for the path and
/// query that it has, whatever they are. Only one that has none is asked for
/// the root.
pub proof fn law_path_to_ask_for(uri: UriView)
    ensures
        uri.path_and_query matches Some(path) ==> uri.path_or_root() == path,
        uri.path_and_query is None ==> uri.path_or_root() == "/"@,
{
    reveal_strlit("/");
    assert("/"@ =~= seq!['/']);
}

/// The query of a URI is part of its path and query, and its text is made of
/// its parts. None of them needs checking again.
pub proof fn law_parts_belong_together(uri: UriView)
    requires
        reusable(uri),
    ensures
        uri.path_and_query is None ==> uri.query is None,
        uri.path_and_query matches Some(path) ==> path.len() > 0 && is_path_and_query(path)
            && !path.contains('#') && (!path.contains('?') ==> uri.query is None) && (
        path.contains('?') ==> uri.query is Some && exists|before: Seq<char>|
            path == #[trigger] (before + seq!['?'] + uri.query->Some_0) && !before.contains('?')),
        uri.scheme matches Some(scheme) ==> is_scheme(scheme),
        uri.authority matches Some(authority) ==> is_authority(authority)
            && crate::text::is_text(authority),
{
    if let Some(path) = uri.path_and_query {
        lemma_question_mark(path);
        lemma_no_hash(path);
        if path.contains('?') {
            let before = path_part(path);
            assert(path == before + seq!['?'] + uri.query->Some_0);
        }
    }
}

proof fn lemma_no_hash(s: Seq<char>)
    requires
        before_fragment(s) == s,
    ensures
        !s.contains('#'),
    decreases s.len(),
{
    if s.len() > 0 {
        assert(s[0] != '#');
        let t = s.drop_first();
        assert(before_fragment(s) == seq![s[0]] + before_fragment(t));
        assert(before_fragment(t) =~= before_fragment(s).drop_first());
        lemma_no_hash(t);
        if s.contains('#') {
            let i = choose|i: int| 0 <= i < s.len() && s[i] == '#';
            assert(t[i - 1] == '#');
            assert(t.contains('#'));
        }
    }
}

/// A scheme is made of at most 64 letters, digits, pluses, minuses, full stops
/// and tildes.
pub proof fn law_spelling_of_a_scheme(s: Seq<char>)
    ensures
        is_scheme(s) <==> s.len() < 65 && forall|i: int|
            #![trigger s[i]]
            0 <= i < s.len() ==> 'a' <= s[i] <= 'z' || 'A' <= s[i] <= 'Z' || '0' <= s[i] <= '9'
                || s[i] == '+' || s[i] == '-' || s[i] == '.' || s[i] == '~',
{
    if is_scheme(s) {
        assert forall|i: int| 0 <= i < s.len() implies 'a' <= #[trigger] s[i] <= 'z' || 'A' <= s[i]
            <= 'Z' || '0' <= s[i] <= '9' || s[i] == '+' || s[i] == '-' || s[i] == '.' || s[i]
            == '~' by {
            assert(scheme_char(s[i]));
        }
    }
}

/// An owned part stands for its characters.
pub proof fn law_parts_are_read_as_they_are(parts: UriParts)
    ensures
        parts.scheme matches Some(t) ==> parts@.scheme == Some(t@),
        parts.scheme is None ==> parts@.scheme is None,
        parts.authority matches Some(t) ==> parts@.authority == Some(t@),
        parts.authority is None ==> parts@.authority is None,
        parts.path_and_query matches Some(t) ==> parts@.path_and_query == Some(t@),
        parts.path_and_query is None ==> parts@.path_and_query is None,
        parts.query matches Some(t) ==> parts@.query == Some(t@),
        parts.query is None ==> parts@.query is None,
        parts@.text == parts.text@,
{
}

} // verus!
