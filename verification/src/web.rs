//! The files of the web panel.

use crate::text;
use vstd::prelude::*;

verus! {

broadcast use vstd::string::group_string_axioms;

/// The text without the slashes at its start.
pub open spec fn without_slashes(s: Seq<char>) -> Seq<char>
    decreases s.len(),
{
    if s.len() > 0 && s[0] == '/' {
        without_slashes(s.subrange(1, s.len() as int))
    } else {
        s
    }
}

/// The file that a path asks for: the start page where the path is empty or a slash.
pub open spec fn file_of(path: Seq<char>) -> Seq<char> {
    if path.len() == 0 || path == "/"@ {
        "index.html"@
    } else {
        without_slashes(path)
    }
}

/// The name of the file that a path asks for.
pub fn asset_name(path: &str) -> (r: String)
    ensures
        r@ == file_of(path@),
{
    let c = text::chars_of(path);
    if c.len() == 0 || text::same_text(path, "/") {
        return "index.html".to_owned();
    }
    let mut i: usize = 0;
    assert(c@.subrange(0, c@.len() as int) =~= c@);
    while i < c.len() && c[i] == '/'
        invariant
            i <= c@.len(),
            c@ == path@,
            without_slashes(path@) == without_slashes(c@.subrange(i as int, c@.len() as int)),
        decreases c@.len() - i,
    {
        proof {
            let rest = c@.subrange(i as int, c@.len() as int);
            assert(rest[0] == '/');
            assert(rest.subrange(1, rest.len() as int) =~= c@.subrange(i + 1, c@.len() as int));
        }
        i += 1;
    }
    text::string_of(&c.as_slice()[i..c.len()])
}

/// The type of a file, by the ending of its name.
pub open spec fn type_of(name: Seq<char>) -> Seq<char> {
    if ".html"@.is_suffix_of(name) {
        "text/html; charset=utf-8"@
    } else if ".css"@.is_suffix_of(name) {
        "text/css; charset=utf-8"@
    } else if ".js"@.is_suffix_of(name) {
        "application/javascript; charset=utf-8"@
    } else if ".png"@.is_suffix_of(name) {
        "image/png"@
    } else if ".svg"@.is_suffix_of(name) {
        "image/svg+xml"@
    } else if ".ico"@.is_suffix_of(name) {
        "image/x-icon"@
    } else {
        "application/octet-stream"@
    }
}

fn has_ending(name: &Vec<char>, ending: &str) -> (r: bool)
    ensures
        r == ending@.is_suffix_of(name@),
{
    let e = text::chars_of(ending);
    text::ends_with(name.as_slice(), e.as_slice())
}

/// The type of a file, by the ending of its name.
pub fn mime_type(filename: &str) -> (r: &'static str)
    ensures
        r@ == type_of(filename@),
{
    let c = text::chars_of(filename);
    if has_ending(&c, ".html") {
        "text/html; charset=utf-8"
    } else if has_ending(&c, ".css") {
        "text/css; charset=utf-8"
    } else if has_ending(&c, ".js") {
        "application/javascript; charset=utf-8"
    } else if has_ending(&c, ".png") {
        "image/png"
    } else if has_ending(&c, ".svg") {
        "image/svg+xml"
    } else if has_ending(&c, ".ico") {
        "image/x-icon"
    } else {
        "application/octet-stream"
    }
}

/// A path asks for the file that it names behind its slashes, as it stands there; without a name it asks
/// for the start page, unless it has more than one slash.
pub proof fn law_path_names_its_file(slashes: Seq<char>, name: Seq<char>)
    requires
        forall|i: int| 0 <= i < slashes.len() ==> #[trigger] slashes[i] == '/',
        name.len() > 0,
        name[0] != '/',
    ensures
        file_of(slashes + name) == name,
        file_of(Seq::empty()) == "index.html"@,
        file_of(seq!['/']) == "index.html"@,
{
    reveal_strlit("/");
    assert("/"@ =~= seq!['/']);
    let path = slashes + name;
    if path == seq!['/'] {
        if slashes.len() > 0 {
            assert(path.len() >= 2);
        } else {
            assert(path[0] == name[0]);
        }
    }
    lemma_slashes_go(slashes, name);
}

proof fn lemma_slashes_go(slashes: Seq<char>, name: Seq<char>)
    requires
        forall|i: int| 0 <= i < slashes.len() ==> #[trigger] slashes[i] == '/',
        name.len() > 0,
        name[0] != '/',
    ensures
        without_slashes(slashes + name) == name,
    decreases slashes.len(),
{
    if slashes.len() == 0 {
        assert(slashes + name =~= name);
    } else {
        let fewer = slashes.subrange(1, slashes.len() as int);
        assert((slashes + name)[0] == slashes[0]);
        assert((slashes + name).subrange(1, (slashes + name).len() as int) =~= fewer + name);
        assert forall|i: int| 0 <= i < fewer.len() implies #[trigger] fewer[i] == '/' by {
            assert(fewer[i] == slashes[i + 1]);
        }
        lemma_slashes_go(fewer, name);
    }
}

/// The type of a file goes by the ending of its name, whatever stands in front of it.
pub proof fn law_ending_gives_the_type(stem: Seq<char>)
    ensures
        type_of(stem + ".html"@) == "text/html; charset=utf-8"@,
        type_of(stem + ".css"@) == "text/css; charset=utf-8"@,
        type_of(stem + ".js"@) == "application/javascript; charset=utf-8"@,
        type_of(stem + ".png"@) == "image/png"@,
        type_of(stem + ".svg"@) == "image/svg+xml"@,
        type_of(stem + ".ico"@) == "image/x-icon"@,
        type_of(stem + "."@) == "application/octet-stream"@,
{
    reveal_strlit(".html");
    reveal_strlit(".css");
    reveal_strlit(".js");
    reveal_strlit(".png");
    reveal_strlit(".svg");
    reveal_strlit(".ico");
    reveal_strlit(".");
    lemma_ends(stem, ".html"@);
    lemma_ends(stem, ".css"@);
    lemma_ends(stem, ".js"@);
    lemma_ends(stem, ".png"@);
    lemma_ends(stem, ".svg"@);
    lemma_ends(stem, ".ico"@);
    lemma_ends(stem, "."@);
}

proof fn lemma_ends(stem: Seq<char>, ending: Seq<char>)
    ensures
        ending.is_suffix_of(stem + ending),
        forall|other: Seq<char>|
            other.len() > 0 && ending.len() > 0 && other.last() != ending.last()
                ==> !(#[trigger] other.is_suffix_of(stem + ending)),
        forall|other: Seq<char>|
            other.len() > 1 && ending.len() > 1 && other[other.len() - 2] != ending[ending.len() - 2]
                ==> !(#[trigger] other.is_suffix_of(stem + ending)),
{
    let s = stem + ending;
    assert(s.subrange(s.len() - ending.len(), s.len() as int) =~= ending);
    assert forall|other: Seq<char>|
        other.len() > 0 && ending.len() > 0 && other.last() != ending.last() implies !(
    #[trigger] other.is_suffix_of(s)) by {
        if other.is_suffix_of(s) {
            assert(s.subrange(s.len() - other.len(), s.len() as int).last() == s.last());
        }
    }
    assert forall|other: Seq<char>|
        other.len() > 1 && ending.len() > 1 && other[other.len() - 2] != ending[ending.len()
            - 2] implies !(#[trigger] other.is_suffix_of(s)) by {
        if other.is_suffix_of(s) {
            assert(s.subrange(s.len() - other.len(), s.len() as int)[other.len() - 2] == s[s.len()
                - 2]);
        }
    }
}

} // verus!
