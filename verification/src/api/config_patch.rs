//! The configuration as the interface shows and changes it. The password hash is never shown, and
//! never changed this way.

use crate::api::json::{
    json_merge, json_view, lemma_no_members, lemma_object, lemma_pushed, members, merged,
    object_members, Json, JsonView,
};
use crate::config::{Config, WebServerConfig};
use crate::text;
use vstd::prelude::*;

verus! {

broadcast use vstd::string::group_string_axioms;

/// The section that holds the password hash.
pub open spec fn web_section() -> Seq<char> {
    "webserver"@
}

/// The key of the password hash in its section.
pub open spec fn hash_key() -> Seq<char> {
    "password-hash"@
}

/// A value without the member with the key.
pub open spec fn without(v: JsonView, key: Seq<char>) -> JsonView {
    match v {
        JsonView::Object(m) => JsonView::Object(m.remove(key)),
        _ => v,
    }
}

/// The configuration without the password hash.
pub open spec fn stripped(v: JsonView) -> JsonView {
    match v {
        JsonView::Object(m) => if m.contains_key(web_section()) {
            JsonView::Object(m.insert(web_section(), without(m[web_section()], hash_key())))
        } else {
            v
        },
        _ => v,
    }
}

/// The password hash in a configuration, if there is one.
pub open spec fn stored_hash(v: JsonView) -> Option<JsonView> {
    let sections = object_members(v);
    if sections.contains_key(web_section()) {
        let web = object_members(sections[web_section()]);
        if web.contains_key(hash_key()) {
            Some(web[hash_key()])
        } else {
            None
        }
    } else {
        None
    }
}

fn without_member(j: &Json, key: &str) -> (r: Json)
    ensures
        r@ == without(j@, key@),
{
    match j {
        Json::Object(v) => {
            let mut out: Vec<(String, Json)> = Vec::new();
            let mut i: usize = 0;
            proof {
                lemma_no_members();
                assert(v@.subrange(0, 0) =~= Seq::empty());
                assert(members(v@.subrange(0, 0)).remove(key@) =~= Map::empty());
            }
            while i < v.len()
                invariant
                    i <= v@.len(),
                    members(out@) == members(v@.subrange(0, i as int)).remove(key@),
                decreases v@.len() - i,
            {
                proof {
                    let before = v@.subrange(0, i as int);
                    let e = v@[i as int];
                    assert(v@.subrange(0, i + 1) =~= before.push(e));
                    lemma_pushed(before, e);
                    if e.0@ == key@ {
                        assert(members(before.push(e)).remove(key@) =~= members(before).remove(
                            key@,
                        ));
                    } else {
                        assert(members(before).insert(e.0@, json_view(e.1)).remove(key@)
                            =~= members(before).remove(key@).insert(e.0@, json_view(e.1)));
                    }
                }
                if !text::same_text(v[i].0.as_str(), key) {
                    let e = (v[i].0.clone(), v[i].1.copy());
                    proof {
                        lemma_pushed(out@, e);
                    }
                    out.push(e);
                }
                i += 1;
            }
            proof {
                assert(v@.subrange(0, v@.len() as int) =~= v@);
                lemma_object(*v);
                lemma_object(out);
            }
            Json::Object(out)
        },
        _ => j.copy(),
    }
}

/// The members, the web section without the hash.
spec fn stripped_members(m: Map<Seq<char>, JsonView>) -> Map<Seq<char>, JsonView> {
    Map::new(
        |k: Seq<char>| m.contains_key(k),
        |k: Seq<char>|
            if k == web_section() {
                without(m[k], hash_key())
            } else {
                m[k]
            },
    )
}

/// Takes the password hash out of a configuration.
pub fn strip_secrets_from_config(json: &mut Json)
    ensures
        final(json)@ == stripped(old(json)@),
{
    let ghost whole = json@;
    let changed: Option<Json> = match &*json {
        Json::Object(v) => {
            let mut out: Vec<(String, Json)> = Vec::new();
            let mut i: usize = 0;
            proof {
                lemma_no_members();
                assert(v@.subrange(0, 0) =~= Seq::empty());
                assert(stripped_members(members(v@.subrange(0, 0))) =~= Map::empty());
            }
            while i < v.len()
                invariant
                    i <= v@.len(),
                    members(out@) == stripped_members(members(v@.subrange(0, i as int))),
                decreases v@.len() - i,
            {
                let value: Json = if text::same_text(v[i].0.as_str(), "webserver") {
                    without_member(&v[i].1, "password-hash")
                } else {
                    v[i].1.copy()
                };
                let e = (v[i].0.clone(), value);
                proof {
                    let before = v@.subrange(0, i as int);
                    assert(v@.subrange(0, i + 1) =~= before.push(v@[i as int]));
                    lemma_pushed(before, v@[i as int]);
                    lemma_pushed(out@, e);
                    assert(stripped_members(
                        members(before).insert(e.0@, json_view(v@[i as int].1)),
                    ) =~= stripped_members(members(before)).insert(e.0@, json_view(e.1)));
                }
                out.push(e);
                i += 1;
            }
            proof {
                assert(v@.subrange(0, v@.len() as int) =~= v@);
                lemma_object(*v);
                lemma_object(out);
                let m = members(v@);
                if m.contains_key(web_section()) {
                    assert(stripped_members(m) =~= m.insert(
                        web_section(),
                        without(m[web_section()], hash_key()),
                    ));
                } else {
                    assert(stripped_members(m) =~= m);
                }
            }
            Some(Json::Object(out))
        },
        _ => None,
    };
    match changed {
        Some(j) => {
            *json = j;
        },
        None => {},
    }
}

/// A configuration has a place for the password hash: it is an object, and its web section, where it
/// has one, is an object too.
pub open spec fn has_place(v: JsonView) -> bool {
    &&& v is Object
    &&& object_members(v).contains_key(web_section()) ==> object_members(
        v,
    )[web_section()] is Object
}

/// The configuration with a password hash in its web section; as it is where there is no hash, or no
/// place for it.
pub open spec fn with_hash(v: JsonView, hash: Option<JsonView>) -> JsonView {
    match hash {
        Some(h) => if has_place(v) {
            let sections = object_members(v);
            let web = if sections.contains_key(web_section()) {
                object_members(sections[web_section()])
            } else {
                Map::empty()
            };
            JsonView::Object(
                sections.insert(web_section(), JsonView::Object(web.insert(hash_key(), h))),
            )
        } else {
            v
        },
        None => v,
    }
}

/// The configuration after a patch of the interface: the patch is merged into it, and the password
/// hash is the one from before.
pub open spec fn patched(current: JsonView, body: JsonView) -> JsonView {
    with_hash(merged(current, stripped(body)), stored_hash(current))
}

/// A patch that leaves a web section leaves the password hash in it as well.
proof fn lemma_merge_keeps_the_hash(current: JsonView, body: JsonView)
    ensures
        ({
            let m = merged(current, stripped(body));
            has_place(m) && object_members(m).contains_key(web_section()) ==> stored_hash(m)
                == stored_hash(current) && with_hash(m, stored_hash(current)) == m
        }),
{
    let s = stripped(body);
    let m = merged(current, s);
    if has_place(m) && object_members(m).contains_key(web_section()) {
        assert(body is Object);
        if object_members(body).contains_key(web_section()) {
            let web = object_members(body)[web_section()];
            let left = without(web, hash_key());
            assert(object_members(s)[web_section()] == left);
            let from = if object_members(current).contains_key(web_section()) {
                object_members(current)[web_section()]
            } else {
                JsonView::Null
            };
            assert(object_members(m)[web_section()] == merged(from, left));
            assert(left is Object);
            assert(!object_members(left).contains_key(hash_key()));
            assert(object_members(merged(from, left)).contains_key(hash_key()) == object_members(
                from,
            ).contains_key(hash_key()));
        }
        if stored_hash(m) is Some {
            let sections = object_members(m);
            let web = object_members(sections[web_section()]);
            assert(web.insert(hash_key(), web[hash_key()]) =~= web);
            assert(sections.insert(web_section(), sections[web_section()]) =~= sections);
        }
    }
}

/// The password hash in a configuration, if there is one.
fn hash_in(config: &Json) -> (r: Option<Json>)
    ensures
        match r {
            Some(h) => stored_hash(config@) == Some(h@),
            None => stored_hash(config@) is None,
        },
{
    match config.member("webserver") {
        Some(web) => match web.member("password-hash") {
            Some(h) => Some(h.copy()),
            None => None,
        },
        None => None,
    }
}

/// Adds a web section that holds nothing but the password hash.
fn add_hash(config: &mut Json, hash: Json)
    requires
        old(config)@ is Object,
        !object_members(old(config)@).contains_key(web_section()),
    ensures
        final(config)@ == with_hash(old(config)@, Some(hash@)),
{
    let mut web: Vec<(String, Json)> = Vec::new();
    let e = ("password-hash".to_owned(), hash);
    proof {
        lemma_no_members();
        lemma_pushed(Seq::empty(), e);
    }
    web.push(e);
    proof {
        assert(web@ =~= Seq::empty().push(e));
        lemma_object(web);
    }
    let section = ("webserver".to_owned(), Json::Object(web));
    match config {
        Json::Object(v) => {
            let ghost before = *v;
            proof {
                lemma_object(before);
                lemma_pushed(before@, section);
            }
            v.push(section);
            proof {
                lemma_object(*v);
            }
        },
        _ => {},
    }
}

/// Whether a configuration has a place for the password hash that is still empty, because it has no
/// web section.
fn lacks_web_section(config: &Json) -> (r: bool)
    ensures
        r == (config@ is Object && !object_members(config@).contains_key(web_section())),
{
    match config {
        Json::Object(v) => {
            proof {
                lemma_object(*v);
            }
            match config.member("webserver") {
                Some(_) => false,
                None => true,
            }
        },
        _ => false,
    }
}

/// Patches the configuration with the body of a request; says whether the body has a section for
/// DHCP.
pub fn patch_config(current: &mut Json, body: Json) -> (r: bool)
    ensures
        final(current)@ == patched(old(current)@, body@),
        r == object_members(body@).contains_key("dhcp"@),
{
    proof {
        lemma_merge_keeps_the_hash(current@, body@);
    }
    let hash = hash_in(current);
    let mut patch: Json = body;
    strip_secrets_from_config(&mut patch);
    json_merge(current, &patch);
    if let Some(h) = hash {
        if lacks_web_section(current) {
            add_hash(current, h);
        }
    }
    proof {
        reveal_strlit("dhcp");
        reveal_strlit("webserver");
        assert("dhcp"@.len() != "webserver"@.len());
    }
    match patch.member("dhcp") {
        Some(_) => true,
        None => false,
    }
}

/// The configuration that takes the place of the current one, from what was read of the patched one.
/// It can be run with, and its password hash is the current one. A status and a text where nothing
/// could be read or the configuration cannot be run with; the current one stays then.
pub fn updated_config(current: &Config, read: Result<Config, String>) -> (r: Result<
    Config,
    (u16, String),
>)
    ensures
        match r {
            Ok(c) => {
                &&& read matches Ok(n) && c == (Config {
                    webserver: WebServerConfig {
                        password_hash: c.webserver.password_hash,
                        ..n.webserver
                    },
                    ..n
                })
                &&& c.problem() is None
                &&& text::optional(c.webserver.password_hash) == text::optional(
                    current.webserver.password_hash,
                )
            },
            Err((status, m)) => status == 400 && match read {
                Ok(n) => n.problem() matches Some(t) && m@ == "Invalid config: "@ + (
                "Validation error: "@ + t),
                Err(e) => m@ == "Invalid config: "@ + e@,
            },
        },
{
    let mut why = "Invalid config: ".to_owned();
    match read {
        Err(e) => {
            why.append(e.as_str());
            Err((400, why))
        },
        Ok(n) => match n.validate() {
            Err(e) => {
                let m = e.message();
                why.append(m.as_str());
                Err((400, why))
            },
            Ok(_) => {
                let mut c: Config = n;
                c.webserver.password_hash = text::copy_optional(&current.webserver.password_hash);
                Ok(c)
            },
        },
    }
}

/// One section of the configuration, without the password hash; a status and a text where there is
/// no such section.
pub fn config_section(config: Json, element: &str) -> (r: Result<Json, (u16, String)>)
    ensures
        match r {
            Ok(j) => object_members(stripped(config@)).contains_key(element@) && j@
                == object_members(stripped(config@))[element@],
            Err((status, m)) => !object_members(config@).contains_key(element@) && status == 404
                && m@ == "Unknown config section: "@ + element@,
        },
{
    let mut shown: Json = config;
    strip_secrets_from_config(&mut shown);
    match shown.member(element) {
        Some(j) => Ok(j.copy()),
        None => {
            let mut s = "Unknown config section: ".to_owned();
            s.append(element);
            Err((404, s))
        },
    }
}

/// What is shown of a configuration never holds the password hash.
pub proof fn law_shown_config_has_no_hash(v: JsonView)
    ensures
        stored_hash(stripped(v)) is None,
{
}

/// Nothing but the password hash is taken out: every other section is as it was, and so is every
/// other member of the web section.
pub proof fn law_only_the_hash_is_taken_out(
    m: Map<Seq<char>, JsonView>,
    section: Seq<char>,
    key: Seq<char>,
)
    requires
        m.contains_key(section),
    ensures
        object_members(stripped(JsonView::Object(m))).contains_key(section),
        section != web_section() ==> object_members(stripped(JsonView::Object(m)))[section]
            == m[section],
        section == web_section() && key != hash_key() && object_members(m[section]).contains_key(
            key,
        ) ==> object_members(object_members(stripped(JsonView::Object(m)))[section]).contains_key(
            key,
        ) && object_members(object_members(stripped(JsonView::Object(m)))[section])[key]
            == object_members(m[section])[key],
{
}

/// A patch never changes the password hash, whatever it is and whatever it says: the configuration
/// has the hash from before in its place afterwards, or, where the patch leaves no place for a hash,
/// it holds none.
pub proof fn law_patch_keeps_the_hash(current: JsonView, body: JsonView)
    ensures
        has_place(patched(current, body)) ==> stored_hash(patched(current, body)) == stored_hash(
            current,
        ),
        !has_place(patched(current, body)) ==> stored_hash(patched(current, body)) is None,
        has_place(patched(current, body)) <==> has_place(merged(current, body)),
{
    lemma_merge_keeps_the_hash(current, body);
    lemma_same_place(current, body);
}

/// What a patch leaves a place for does not depend on the hash that it names.
proof fn lemma_same_place(current: JsonView, body: JsonView)
    ensures
        has_place(merged(current, stripped(body))) <==> has_place(merged(current, body)),
{
    if body is Object && object_members(body).contains_key(web_section()) {
        let web = object_members(body)[web_section()];
        let from = if object_members(current).contains_key(web_section()) {
            object_members(current)[web_section()]
        } else {
            JsonView::Null
        };
        let left = without(web, hash_key());
        assert(object_members(stripped(body))[web_section()] == left);
        if !(web is Null) {
            assert(object_members(merged(current, body))[web_section()] == merged(from, web));
            assert(object_members(merged(current, stripped(body)))[web_section()] == merged(
                from,
                left,
            ));
        }
    }
}

/// But for the password hash, a patch does what the merge of the two does: every other section is
/// as the merge leaves it, and so is every other member of the web section.
pub proof fn law_patch_merges_the_rest(
    current: JsonView,
    body: JsonView,
    section: Seq<char>,
    key: Seq<char>,
)
    ensures
        ({
            let a = object_members(patched(current, body));
            let b = object_members(merged(current, body));
            &&& section != web_section() ==> (a.contains_key(section) <==> b.contains_key(section))
            &&& section != web_section() && b.contains_key(section) ==> a[section] == b[section]
            &&& key != hash_key() && b.contains_key(web_section()) ==> {
                let (wa, wb) = (object_members(a[web_section()]), object_members(b[web_section()]));
                (wa.contains_key(key) <==> wb.contains_key(key)) && (wb.contains_key(key) ==> wa[key]
                    == wb[key])
            }
        }),
        !has_place(merged(current, body)) ==> patched(current, body) == merged(current, body),
{
    let m = merged(current, stripped(body));
    lemma_merge_keeps_the_hash(current, body);
    lemma_same_place(current, body);
    let (a, b) = (object_members(m), object_members(merged(current, body)));
    if body is Object && object_members(body).contains_key(web_section()) {
        let web = object_members(body)[web_section()];
        let left = without(web, hash_key());
        assert(object_members(stripped(body))[web_section()] == left);
        if web is Object {
            let from = if object_members(current).contains_key(web_section()) {
                object_members(current)[web_section()]
            } else {
                JsonView::Null
            };
            assert(a[web_section()] == merged(from, left));
            assert(b[web_section()] == merged(from, web));
            let (wa, wb) = (
                object_members(merged(from, left)),
                object_members(merged(from, web)),
            );
            if key != hash_key() {
                assert(wa.contains_key(key) == wb.contains_key(key));
                assert(wb.contains_key(key) ==> wa[key] == wb[key]);
            }
        } else {
            let bm = object_members(body);
            assert(bm.insert(web_section(), web) =~= bm);
            assert(stripped(body) == body);
        }
    }
    assert(section != web_section() ==> (a.contains_key(section) <==> b.contains_key(section)));
}

/// A patch leaves what it does not name.
pub proof fn law_patch_keeps_other_members(
    a: Map<Seq<char>, JsonView>,
    b: Map<Seq<char>, JsonView>,
    key: Seq<char>,
)
    requires
        !b.contains_key(key),
    ensures
        ({
            let r = object_members(merged(JsonView::Object(a), JsonView::Object(b)));
            r.contains_key(key) == a.contains_key(key) && (a.contains_key(key) ==> r[key] == a[key])
        }),
{
}

/// Null in a patch takes a member out.
pub proof fn law_null_takes_out(
    a: Map<Seq<char>, JsonView>,
    b: Map<Seq<char>, JsonView>,
    key: Seq<char>,
)
    requires
        b.contains_key(key),
        b[key] is Null,
    ensures
        !object_members(merged(JsonView::Object(a), JsonView::Object(b))).contains_key(key),
{
}

/// An empty patch changes nothing.
pub proof fn law_empty_patch_changes_nothing(a: Map<Seq<char>, JsonView>)
    ensures
        merged(JsonView::Object(a), JsonView::Object(Map::empty())) == JsonView::Object(a),
{
    assert(merged(JsonView::Object(a), JsonView::Object(Map::empty()))->Object_0 =~= a);
}

/// A patch that is made twice changes no more than once.
pub proof fn law_patch_twice_is_patch_once(a: JsonView, b: JsonView)
    ensures
        merged(merged(a, b), b) == merged(a, b),
    decreases b,
{
    match b {
        JsonView::Object(m) => {
            let once = object_members(merged(a, b));
            let twice = object_members(merged(merged(a, b), b));
            assert forall|k: Seq<char>| #[trigger] twice.contains_key(k) implies twice[k]
                == once[k] by {
                if m.contains_key(k) {
                    let from = if object_members(a).contains_key(k) {
                        object_members(a)[k]
                    } else {
                        JsonView::Null
                    };
                    law_patch_twice_is_patch_once(from, m[k]);
                }
            }
            assert(twice =~= once);
        },
        _ => {},
    }
}

/// What is shown of a configuration has no member `password-hash` in its section `webserver`.
pub proof fn law_password_hash_is_not_shown(v: JsonView)
    ensures
        ({
            let shown = object_members(stripped(v));
            shown.contains_key("webserver"@) ==> !object_members(
                shown["webserver"@],
            ).contains_key("password-hash"@)
        }),
        !(v is Object) ==> stripped(v) == v,
{
}

/// Whatever a patch says of the member `password-hash` of the section `webserver`, the configuration has
/// there afterwards what it had before.
pub proof fn law_password_hash_is_not_patched(current: JsonView, body: JsonView)
    requires
        has_place(merged(current, body)),
    ensures
        ({
            let (a, b) = (object_members(current), object_members(patched(current, body)));
            let had = a.contains_key("webserver"@) && object_members(
                a["webserver"@],
            ).contains_key("password-hash"@);
            let has = b.contains_key("webserver"@) && object_members(
                b["webserver"@],
            ).contains_key("password-hash"@);
            &&& had == has
            &&& had ==> object_members(b["webserver"@])["password-hash"@] == object_members(
                a["webserver"@],
            )["password-hash"@]
        }),
{
    law_patch_keeps_the_hash(current, body);
}

/// A patch that is no object takes the place of what it patches. One that is an object changes just the
/// members that it names: null takes a member out, and anything else patches it in the same way.
pub proof fn law_merge_member_by_member(a: JsonView, b: JsonView, key: Seq<char>)
    ensures
        !(b is Object) ==> merged(a, b) == b,
        b is Object ==> {
            let (x, y) = (object_members(a), object_members(b));
            let r = object_members(merged(a, b));
            &&& merged(a, b) is Object
            &&& !y.contains_key(key) ==> (r.contains_key(key) <==> x.contains_key(key))
            &&& !y.contains_key(key) && x.contains_key(key) ==> r[key] == x[key]
            &&& y.contains_key(key) && y[key] is Null ==> !r.contains_key(key)
            &&& y.contains_key(key) && !(y[key] is Null) ==> r.contains_key(key)
            &&& y.contains_key(key) && !(y[key] is Null) && !(y[key] is Object) ==> r[key] == y[key]
            &&& y.contains_key(key) && y[key] is Object && x.contains_key(key) ==> r[key] == merged(
                x[key],
                y[key],
            )
            &&& y.contains_key(key) && y[key] is Object && !x.contains_key(key) ==> r[key] == merged(
                JsonView::Null,
                y[key],
            )
        },
{
}

/// A configuration takes the place of the current one only where it could be read, has an upstream server
/// and a rate limit above zero; and it keeps the password hash. Everything else is as it was read.
pub proof fn law_only_usable_configurations_are_taken(
    current: &Config,
    read: Result<Config, String>,
    r: Result<Config, (u16, String)>,
)
    requires
        updated_config.ensures((current, read), r),
    ensures
        r is Ok <==> (read is Ok && read->Ok_0.dns.upstreams@.len() > 0
            && read->Ok_0.dns.rate_limit > 0),
        r is Err ==> (r->Err_0).0 == 400,
        r is Ok ==> {
            let (c, n) = (r->Ok_0, read->Ok_0);
            &&& text::optional(c.webserver.password_hash) == text::optional(
                current.webserver.password_hash,
            )
            &&& c.dns == n.dns && c.dhcp == n.dhcp && c.database == n.database && c.debug == n.debug
            &&& c.misc == n.misc && c.blocking == n.blocking && c.files == n.files
            &&& c.webserver.ports == n.webserver.ports && c.webserver.session_timeout
                == n.webserver.session_timeout
        },
{
}

/// A section of the configuration is shown as it is, but for the password hash; a section that is not
/// there is answered with the status 404.
pub proof fn law_sections_are_shown(config: Json, element: &str, r: Result<Json, (u16, String)>)
    requires
        config_section.ensures((config, element), r),
        config@ is Object,
    ensures
        r is Ok <==> object_members(config@).contains_key(element@),
        r is Ok && element@ != "webserver"@ ==> r->Ok_0@ == object_members(config@)[element@],
        r is Ok && element@ == "webserver"@ ==> !object_members(r->Ok_0@).contains_key(
            "password-hash"@,
        ),
        r is Err ==> (r->Err_0).0 == 404,
{
}

} // verus!
