//! Argument interpolation: rewriting a map of JSON values by resolving
//! `$var:` / `$res:` / `$<reserved>` placeholder strings against the
//! resolved environment the caller supplies.
use vstd::prelude::*;
use vstd::string::*;

verus! {

/// A JSON value as the interpolation logic reads it: strings (the only
/// values placeholders live in), objects (recursed into per field), and
/// everything else as raw JSON text, carried through unchanged.
#[derive(Debug)]
pub enum JVal {
    Str(String),
    Obj(Vec<(String, JVal)>),
    Raw(String),
}

/// The mathematical shape of a `JVal`: text as character sequences.
pub enum JView {
    Str(Seq<char>),
    Obj(Seq<(Seq<char>, JView)>),
    Raw(Seq<char>),
}

/// The view of a `JVal`.
pub open spec fn jview(v: JVal) -> JView
    decreases v,
{
    match v {
        JVal::Str(s) => JView::Str(s@),
        JVal::Raw(s) => JView::Raw(s@),
        JVal::Obj(fs) => JView::Obj(field_views(fs@)),
    }
}

/// The views of an object's fields, in order.
pub open spec fn field_views(fs: Seq<(String, JVal)>) -> Seq<(Seq<char>, JView)>
    decreases fs,
{
    if fs.len() == 0 {
        Seq::<(Seq<char>, JView)>::empty()
    } else {
        seq![(fs[0].0@, jview(fs[0].1))].add(field_views(fs.drop_first()))
    }
}

/// No string value anywhere in `v` starts with `$`.
pub open spec fn no_dollar(v: JView) -> bool
    decreases v,
{
    match v {
        JView::Str(s) => !(s.len() > 0 && s[0] == '$'),
        JView::Raw(_) => true,
        JView::Obj(fs) => forall|i: int|
            0 <= i < fs.len() ==> no_dollar((#[trigger] fs[i]).1),
    }
}

/// Appending a field extends the field views by that field's view.
pub proof fn lemma_field_views_push(fs: Seq<(String, JVal)>, p: (String, JVal))
    ensures
        field_views(fs.push(p)) == field_views(fs).push((p.0@, jview(p.1))),
    decreases fs.len(),
{
    if fs.len() == 0 {
        assert(fs.push(p)[0] == p);
        assert(fs.push(p).drop_first() =~= fs);
        assert(field_views(fs.push(p)) =~= field_views(fs).push((p.0@, jview(p.1))));
    } else {
        assert(fs.push(p)[0] == fs[0]);
        assert(fs.push(p).drop_first() =~= fs.drop_first().push(p));
        lemma_field_views_push(fs.drop_first(), p);
        assert(field_views(fs.push(p)) =~= field_views(fs).push((p.0@, jview(p.1))));
    }
}

/// The resolved environment interpolation draws on: variable values by
/// path, resource values by workspace-qualified path, and the reserved
/// variable table by unprefixed name. The caller materialises these before
/// supervision; a path absent here stands for one the backing store lacks.
pub struct InterpEnv {
    pub variables: Vec<(String, String)>,
    pub resources: Vec<(String, JVal)>,
    pub reserved: Vec<(String, String)>,
}

/// First-match lookup of `key` among text pairs.
pub open spec fn assoc_text(pairs: Seq<(String, String)>, key: Seq<char>) -> Option<Seq<char>>
    decreases pairs.len(),
{
    if pairs.len() == 0 {
        None
    } else if pairs[0].0@ == key {
        Some(pairs[0].1@)
    } else {
        assoc_text(pairs.drop_first(), key)
    }
}

/// First-match lookup of `key` among resource pairs, yielding the value's
/// view.
pub open spec fn assoc_jval(pairs: Seq<(String, JVal)>, key: Seq<char>) -> Option<JView>
    decreases pairs.len(),
{
    if pairs.len() == 0 {
        None
    } else if pairs[0].0@ == key {
        Some(jview(pairs[0].1))
    } else {
        assoc_jval(pairs.drop_first(), key)
    }
}

/// Looks `key` up among text pairs, first match wins.
pub fn lookup_text(pairs: &Vec<(String, String)>, key: &str) -> (r: Option<String>)
    ensures
        (match (r, assoc_text(pairs@, key@)) {
            (Some(v), Some(sv)) => v@ == sv,
            (None, None) => true,
            _ => false,
        }),
{
    let mut i: usize = 0;
    proof {
        assert(pairs@.skip(0) =~= pairs@);
    }
    while i < pairs.len()
        invariant
            i <= pairs@.len(),
            assoc_text(pairs@, key@) == assoc_text(pairs@.skip(i as int), key@),
        decreases pairs@.len() - i,
    {
        proof {
            assert(pairs@.skip(i as int)[0] == pairs@[i as int]);
            assert(pairs@.skip(i as int).drop_first() =~= pairs@.skip(i as int + 1));
        }
        if crate::text::str_eq(pairs[i].0.as_str(), key) {
            return Some(pairs[i].1.clone());
        }
        i += 1;
    }
    None
}

/// Wraps text that is already known to be valid JSON as a raw value,
/// without re-parsing it.
pub fn raw_value(json: String) -> (r: JVal)
    ensures
        jview(r) == JView::Raw(json@),
{
    JVal::Raw(json)
}

/// Deep-copies a JSON value; the copy has the same view.
pub fn clone_jval(v: &JVal) -> (r: JVal)
    ensures
        jview(r) == jview(*v),
    decreases v,
{
    match v {
        JVal::Str(s) => JVal::Str(s.clone()),
        JVal::Raw(s) => JVal::Raw(s.clone()),
        JVal::Obj(fs) => {
            let mut out: Vec<(String, JVal)> = Vec::new();
            let mut i: usize = 0;
            proof {
                assert(field_views(fs@.take(0)) =~= field_views(out@));
            }
            while i < fs.len()
                invariant
                    i <= fs@.len(),
                    *v == JVal::Obj(*fs),
                    field_views(out@) == field_views(fs@.take(i as int)),
                decreases fs@.len() - i,
            {
                proof {
                    assert(decreases_to!(*v => v->Obj_0));
                    assert(v->Obj_0 == *fs);
                    assert(decreases_to!(*fs => fs@));
                    assert(decreases_to!(fs@ => fs@[i as int]));
                    assert(decreases_to!(fs@[i as int] => fs@[i as int].1));
                }
                let k = fs[i].0.clone();
                let nv = clone_jval(&fs[i].1);
                let ghost prev = out@;
                out.push((k, nv));
                proof {
                    assert(out@ == prev.push(out@.last()));
                    lemma_field_views_push(prev, out@.last());
                    assert(out@.last().0@ == fs@[i as int].0@);
                    assert(jview(out@.last().1) == jview(fs@[i as int].1));
                    assert(fs@.take(i as int + 1) =~= fs@.take(i as int).push(fs@[i as int]));
                    lemma_field_views_push(fs@.take(i as int), fs@[i as int]);
                    assert(field_views(out@) =~= field_views(fs@.take(i as int + 1)));
                }
                i += 1;
            }
            proof {
                assert(fs@.take(fs@.len() as int) =~= fs@);
            }
            JVal::Obj(out)
        },
    }
}

/// `field_views` preserves length and maps each field pointwise.
pub proof fn lemma_field_views_index(fs: Seq<(String, JVal)>, i: int)
    requires
        0 <= i < fs.len(),
    ensures
        field_views(fs).len() == fs.len(),
        field_views(fs)[i] == (fs[i].0@, jview(fs[i].1)),
    decreases fs.len(),
{
    lemma_field_views_len(fs);
    if i > 0 {
        lemma_field_views_index(fs.drop_first(), i - 1);
    }
}

/// `field_views` preserves length.
pub proof fn lemma_field_views_len(fs: Seq<(String, JVal)>)
    ensures
        field_views(fs).len() == fs.len(),
    decreases fs.len(),
{
    if fs.len() > 0 {
        lemma_field_views_len(fs.drop_first());
    }
}

/// The message reported for a missing variable: the path, the argument it
/// was for, and after the colon what the lookup found.
pub open spec fn var_not_found_msg(path: Seq<char>, name: Seq<char>) -> Seq<char> {
    "Variable "@.add(path).add(" not found for `"@).add(name).add(
        "`: variable not found in environment"@,
    )
}

/// The message reported for a resource path without a workspace segment.
pub open spec fn res_invalid_msg(name: Seq<char>, path: Seq<char>) -> Seq<char> {
    "Argument `"@.add(name).add("` is an invalid resource path: "@).add(path)
}

/// The message reported for a missing resource: the path, the argument it
/// was for, and after the colon what the lookup found.
pub open spec fn res_not_found_msg(path: Seq<char>, name: Seq<char>) -> Seq<char> {
    "Resource "@.add(path).add(" not found for `"@).add(name).add(
        "`: resource not found in environment"@,
    )
}

/// How interpolating one value ends: a rewritten value, a missing
/// variable or resource, or a malformed placeholder.
pub enum InterpOutcome {
    Done(JView),
    NotFound(Seq<char>),
    Invalid(Seq<char>),
}

/// How interpolating a run of object fields ends.
pub enum FieldsOutcome {
    FDone(Seq<(Seq<char>, JView)>),
    FNotFound(Seq<char>),
    FInvalid(Seq<char>),
}

/// Prefixes finished fields onto a fields outcome; errors pass through.
pub open spec fn prepend_fields(prefix: Seq<(Seq<char>, JView)>, o: FieldsOutcome) -> FieldsOutcome {
    match o {
        FieldsOutcome::FDone(rest) => FieldsOutcome::FDone(prefix.add(rest)),
        e => e,
    }
}

/// Prefixing twice is prefixing the concatenation.
pub proof fn lemma_prepend_assoc(a: Seq<(Seq<char>, JView)>, b: Seq<(Seq<char>, JView)>, o: FieldsOutcome)
    ensures
        prepend_fields(a, prepend_fields(b, o)) == prepend_fields(a.add(b), o),
{
    match o {
        FieldsOutcome::FDone(rest) => {
            assert(a.add(b.add(rest)) =~= a.add(b).add(rest));
        },
        _ => {},
    }
}

/// What interpolating one value yields, against the resolved environment.
///
/// A string `$var:<path>` becomes the variable's value, or a missing-
/// variable error. A string `$res:<path>` requires at least two `/`-
/// separated segments, then becomes the resource's value or a missing-
/// resource error. Any other string starting `$` is replaced by the
/// reserved variable of that name when one exists, else kept. Objects are
/// rewritten field by field, the field's key serving as the name in error
/// messages; the first failing field decides. Everything else is kept.
pub open spec fn interp_value_spec(
    name: Seq<char>,
    v: JView,
    vars: Seq<(String, String)>,
    ress: Seq<(String, JVal)>,
    rsvd: Seq<(String, String)>,
) -> InterpOutcome
    decreases v,
{
    match v {
        JView::Str(s) => {
            if crate::text::starts_with_spec(s, "$var:"@) {
                let path = s.skip(5);
                match assoc_text(vars, path) {
                    Some(val) => InterpOutcome::Done(JView::Str(val)),
                    None => InterpOutcome::NotFound(var_not_found_msg(path, name)),
                }
            } else if crate::text::starts_with_spec(s, "$res:"@) {
                let path = s.skip(5);
                if !path.contains('/') {
                    InterpOutcome::Invalid(res_invalid_msg(name, path))
                } else {
                    match assoc_jval(ress, path) {
                        Some(val) => InterpOutcome::Done(val),
                        None => InterpOutcome::NotFound(res_not_found_msg(path, name)),
                    }
                }
            } else if crate::text::starts_with_spec(s, "$"@) {
                match assoc_text(rsvd, s.skip(1)) {
                    Some(val) => InterpOutcome::Done(JView::Str(val)),
                    None => InterpOutcome::Done(JView::Str(s)),
                }
            } else {
                InterpOutcome::Done(JView::Str(s))
            }
        },
        JView::Raw(s) => InterpOutcome::Done(JView::Raw(s)),
        JView::Obj(fs) => match interp_fields_spec(fs, vars, ress, rsvd) {
            FieldsOutcome::FDone(nfs) => InterpOutcome::Done(JView::Obj(nfs)),
            FieldsOutcome::FNotFound(m) => InterpOutcome::NotFound(m),
            FieldsOutcome::FInvalid(m) => InterpOutcome::Invalid(m),
        },
    }
}

/// What interpolating a run of object fields yields: each field's value is
/// interpolated under the field's key as name; the first error wins.
pub open spec fn interp_fields_spec(
    fs: Seq<(Seq<char>, JView)>,
    vars: Seq<(String, String)>,
    ress: Seq<(String, JVal)>,
    rsvd: Seq<(String, String)>,
) -> FieldsOutcome
    decreases fs,
{
    if fs.len() == 0 {
        FieldsOutcome::FDone(Seq::<(Seq<char>, JView)>::empty())
    } else {
        match interp_value_spec(fs[0].0, fs[0].1, vars, ress, rsvd) {
            InterpOutcome::Done(nv) => prepend_fields(
                seq![(fs[0].0, nv)],
                interp_fields_spec(fs.drop_first(), vars, ress, rsvd),
            ),
            InterpOutcome::NotFound(m) => FieldsOutcome::FNotFound(m),
            InterpOutcome::Invalid(m) => FieldsOutcome::FInvalid(m),
        }
    }
}

/// Rewrites one value by resolving its placeholders against `env`, exactly
/// as `interp_value_spec` describes.
pub fn transform_json_value(name: &str, v: JVal, env: &InterpEnv) -> (r: Result<JVal, crate::error::Error>)
    ensures
        (match (r, interp_value_spec(name@, jview(v), env.variables@, env.resources@, env.reserved@)) {
            (Ok(out), InterpOutcome::Done(jv)) => jview(out) == jv,
            (Err(crate::error::Error::NotFound(m)), InterpOutcome::NotFound(ms)) => m@ == ms,
            (Err(crate::error::Error::InternalErr(m)), InterpOutcome::Invalid(ms)) => m@ == ms,
            _ => false,
        }),
    decreases v,
{
    match v {
        JVal::Str(s) => {
            proof {
                reveal_strlit("$var:");
                reveal_strlit("$res:");
                reveal_strlit("$");
            }
            let n = s.as_str().unicode_len();
            if crate::text::str_starts_with(s.as_str(), "$var:") {
                let path = String::from_str(s.as_str().substring_char(5, n));
                proof {
                    assert(path@ =~= s@.skip(5));
                }
                match lookup_text(&env.variables, path.as_str()) {
                    Some(val) => Ok(JVal::Str(val)),
                    None => {
                        let mut m = String::from_str("Variable ");
                        m.append(path.as_str());
                        m.append(" not found for `");
                        m.append(name);
                        m.append("`: variable not found in environment");
                        proof {
                            assert(m@ =~= var_not_found_msg(s@.skip(5), name@));
                        }
                        Err(crate::error::Error::NotFound(m))
                    },
                }
            } else if crate::text::str_starts_with(s.as_str(), "$res:") {
                let path = String::from_str(s.as_str().substring_char(5, n));
                proof {
                    assert(path@ =~= s@.skip(5));
                }
                if !crate::text::str_contains_char(path.as_str(), '/') {
                    let mut m = String::from_str("Argument `");
                    m.append(name);
                    m.append("` is an invalid resource path: ");
                    m.append(path.as_str());
                    proof {
                        assert(m@ =~= res_invalid_msg(name@, s@.skip(5)));
                    }
                    Err(crate::error::Error::InternalErr(m))
                } else {
                    match lookup_res(&env.resources, path.as_str()) {
                        Some(val) => Ok(val),
                        None => {
                            let mut m = String::from_str("Resource ");
                            m.append(path.as_str());
                            m.append(" not found for `");
                            m.append(name);
                            m.append("`: resource not found in environment");
                            proof {
                                assert(m@ =~= res_not_found_msg(s@.skip(5), name@));
                            }
                            Err(crate::error::Error::NotFound(m))
                        },
                    }
                }
            } else if crate::text::str_starts_with(s.as_str(), "$") {
                let rest = String::from_str(s.as_str().substring_char(1, n));
                proof {
                    assert(rest@ =~= s@.skip(1));
                }
                match lookup_text(&env.reserved, rest.as_str()) {
                    Some(val) => Ok(JVal::Str(val)),
                    None => Ok(JVal::Str(s)),
                }
            } else {
                Ok(JVal::Str(s))
            }
        },
        JVal::Raw(s) => Ok(JVal::Raw(s)),
        JVal::Obj(fs) => {
            let ghost vec0 = fs;
            let ghost fs0 = fs@;
            let ghost vars = env.variables@;
            let ghost ress = env.resources@;
            let ghost rsvd = env.reserved@;
            let mut fields = fs;
            let mut out: Vec<(String, JVal)> = Vec::new();
            let ghost mut j: int = 0;
            proof {
                assert(fs0.skip(0) =~= fs0);
                assert(field_views(Seq::<(String, JVal)>::empty()) =~= Seq::<(
                    Seq<char>,
                    JView,
                )>::empty());
                assert(prepend_fields(
                    field_views(out@),
                    interp_fields_spec(field_views(fields@), vars, ress, rsvd),
                ) == interp_fields_spec(field_views(fs0), vars, ress, rsvd)) by {
                    match interp_fields_spec(field_views(fs0), vars, ress, rsvd) {
                        FieldsOutcome::FDone(rest) => {
                            assert(Seq::<(Seq<char>, JView)>::empty().add(rest) =~= rest);
                        },
                        _ => {},
                    }
                }
            }
            while fields.len() > 0
                invariant
                    v == JVal::Obj(vec0),
                    vec0@ == fs0,
                    0 <= j <= fs0.len(),
                    fields@ == fs0.skip(j),
                    vars == env.variables@,
                    ress == env.resources@,
                    rsvd == env.reserved@,
                    prepend_fields(
                        field_views(out@),
                        interp_fields_spec(field_views(fields@), vars, ress, rsvd),
                    ) == interp_fields_spec(field_views(fs0), vars, ress, rsvd),
                decreases fields@.len(),
            {
                let ghost cur = fields@;
                let kv = fields.remove(0);
                let k = kv.0;
                let v0 = kv.1;
                proof {
                    assert(cur.remove(0) =~= cur.drop_first());
                    assert(fields@ =~= fs0.skip(j + 1)) by {
                        assert(fs0.skip(j).drop_first() =~= fs0.skip(j + 1));
                    }
                    assert(v0 == fs0.skip(j)[0].1);
                    assert(fs0.skip(j)[0] == fs0[j]);
                    assert(decreases_to!(v => v->Obj_0));
                    assert(v->Obj_0 == vec0);
                    assert(decreases_to!(vec0 => vec0@));
                    assert(decreases_to!(fs0 => fs0[j]));
                    assert(decreases_to!(fs0[j] => fs0[j].1));
                    lemma_field_views_index(cur, 0);
                    assert(field_views(cur)[0] == (k@, jview(v0)));
                    assert(field_views(cur).drop_first() =~= field_views(cur.drop_first())) by {
                        lemma_field_views_len(cur);
                        lemma_field_views_len(cur.drop_first());
                        assert forall|x: int| 0 <= x < cur.len() - 1 implies field_views(
                            cur,
                        ).drop_first()[x] == field_views(cur.drop_first())[x] by {
                            lemma_field_views_index(cur, x + 1);
                            lemma_field_views_index(cur.drop_first(), x);
                        }
                    }
                }
                match transform_json_value(k.as_str(), v0, env) {
                    Ok(nv) => {
                        let ghost prev = out@;
                        let ghost nvv = jview(nv);
                        out.push((k, nv));
                        proof {
                            assert(out@ == prev.push(out@.last()));
                            lemma_field_views_push(prev, out@.last());
                            assert(field_views(out@) =~= field_views(prev).add(
                                seq![(out@.last().0@, jview(out@.last().1))],
                            ));
                            lemma_prepend_assoc(
                                field_views(prev),
                                seq![(cur[0].0@, nvv)],
                                interp_fields_spec(field_views(fields@), vars, ress, rsvd),
                            );
                            assert(field_views(cur)[0].0 == cur[0].0@);
                            assert(seq![(out@.last().0@, jview(out@.last().1))] =~= seq![
                                (cur[0].0@, nvv),
                            ]);
                            j = j + 1;
                        }
                    },
                    Err(e) => {
                        proof {
                            assert(jview(v) == JView::Obj(field_views(fs0)));
                        }
                        return Err(e);
                    },
                }
            }
            proof {
                assert(fields@.len() == 0);
                assert(field_views(fields@) =~= Seq::<(Seq<char>, JView)>::empty());
                match interp_fields_spec(field_views(fs0), vars, ress, rsvd) {
                    FieldsOutcome::FDone(all) => {
                        assert(field_views(out@).add(Seq::<(Seq<char>, JView)>::empty())
                            =~= field_views(out@));
                    },
                    _ => {},
                }
            }
            Ok(JVal::Obj(out))
        },
    }
}

/// Looks `key` up among resource pairs, first match wins; the returned
/// value is a deep copy.
pub fn lookup_res(pairs: &Vec<(String, JVal)>, key: &str) -> (r: Option<JVal>)
    ensures
        (match (r, assoc_jval(pairs@, key@)) {
            (Some(v), Some(sv)) => jview(v) == sv,
            (None, None) => true,
            _ => false,
        }),
{
    let mut i: usize = 0;
    proof {
        assert(pairs@.skip(0) =~= pairs@);
    }
    while i < pairs.len()
        invariant
            i <= pairs@.len(),
            assoc_jval(pairs@, key@) == assoc_jval(pairs@.skip(i as int), key@),
        decreases pairs@.len() - i,
    {
        proof {
            assert(pairs@.skip(i as int)[0] == pairs@[i as int]);
            assert(pairs@.skip(i as int).drop_first() =~= pairs@.skip(i as int + 1));
        }
        if crate::text::str_eq(pairs[i].0.as_str(), key) {
            return Some(clone_jval(&pairs[i].1));
        }
        i += 1;
    }
    None
}

/// Whether a piece of text holds a `$var:` or `$res:` marker.
pub open spec fn text_has_marker(s: Seq<char>) -> bool {
    crate::text::contains_seq(s, "$var:"@) || crate::text::contains_seq(s, "$res:"@)
}

/// Whether a value holds a `$var:` or `$res:` marker anywhere in its text:
/// in a string, in raw JSON, or in any nested key or value.
pub open spec fn jhas_marker(v: JView) -> bool
    decreases v,
{
    match v {
        JView::Str(s) => text_has_marker(s),
        JView::Raw(s) => text_has_marker(s),
        JView::Obj(fs) => fields_have_marker(fs),
    }
}

/// Whether any key or value of a run of fields holds a marker.
pub open spec fn fields_have_marker(fs: Seq<(Seq<char>, JView)>) -> bool
    decreases fs,
{
    if fs.len() == 0 {
        false
    } else {
        text_has_marker(fs[0].0) || jhas_marker(fs[0].1) || fields_have_marker(fs.drop_first())
    }
}

/// Tests whether a value holds a `$var:` or `$res:` marker anywhere.
pub fn jval_has_marker(v: &JVal) -> (r: bool)
    ensures
        r == jhas_marker(jview(*v)),
    decreases v,
{
    match v {
        JVal::Str(s) => {
            crate::text::str_contains(s.as_str(), "$var:") || crate::text::str_contains(
                s.as_str(),
                "$res:",
            )
        },
        JVal::Raw(s) => {
            crate::text::str_contains(s.as_str(), "$var:") || crate::text::str_contains(
                s.as_str(),
                "$res:",
            )
        },
        JVal::Obj(fs) => {
            let ghost fvs = field_views(fs@);
            proof {
                lemma_field_views_len(fs@);
                assert(fvs.skip(0) =~= fvs);
            }
            let mut i: usize = 0;
            while i < fs.len()
                invariant
                    i <= fs@.len(),
                    *v == JVal::Obj(*fs),
                    fvs == field_views(fs@),
                    fvs.len() == fs@.len(),
                    fields_have_marker(fvs) == fields_have_marker(fvs.skip(i as int)),
                decreases fs@.len() - i,
            {
                proof {
                    assert(decreases_to!(*v => v->Obj_0));
                    assert(v->Obj_0 == *fs);
                    assert(decreases_to!(*fs => fs@));
                    assert(decreases_to!(fs@ => fs@[i as int]));
                    assert(decreases_to!(fs@[i as int] => fs@[i as int].1));
                    lemma_field_views_index(fs@, i as int);
                    assert(fvs.skip(i as int)[0] == fvs[i as int]);
                    assert(fvs.skip(i as int).drop_first() =~= fvs.skip(i as int + 1));
                }
                let key_hit = crate::text::str_contains(fs[i].0.as_str(), "$var:")
                    || crate::text::str_contains(fs[i].0.as_str(), "$res:");
                let val_hit = jval_has_marker(&fs[i].1);
                if key_hit || val_hit {
                    proof {
                        assert(fields_have_marker(fvs.skip(i as int)));
                        assert(jview(*v) == JView::Obj(fvs));
                    }
                    return true;
                }
                i += 1;
            }
            proof {
                assert(fvs.skip(i as int).len() == 0);
                assert(jview(*v) == JView::Obj(fvs));
            }
            false
        },
    }
}

/// How rewriting a whole argument map ends: untouched (no marker anywhere,
/// the fast path), rewritten, or failed.
pub enum MapOutcome {
    Unchanged,
    Changed(Seq<(Seq<char>, JView)>),
    MNotFound(Seq<char>),
    MInvalid(Seq<char>),
}

/// Whether any value of the map holds a marker. Only values are examined
/// at the top level; their nested keys count as part of their text.
pub open spec fn map_needs_interp(fs: Seq<(String, JVal)>) -> bool {
    exists|i: int| 0 <= i < fs.len() && jhas_marker(jview((#[trigger] fs[i]).1))
}

/// What rewriting the map's entries yields: a value with a marker is
/// interpolated under its key as name; one without is kept as it is. The
/// first failing entry decides.
pub open spec fn transform_entries_spec(
    fs: Seq<(String, JVal)>,
    vars: Seq<(String, String)>,
    ress: Seq<(String, JVal)>,
    rsvd: Seq<(String, String)>,
) -> FieldsOutcome
    decreases fs.len(),
{
    if fs.len() == 0 {
        FieldsOutcome::FDone(Seq::<(Seq<char>, JView)>::empty())
    } else {
        let head = if jhas_marker(jview(fs[0].1)) {
            interp_value_spec(fs[0].0@, jview(fs[0].1), vars, ress, rsvd)
        } else {
            InterpOutcome::Done(jview(fs[0].1))
        };
        match head {
            InterpOutcome::Done(nv) => prepend_fields(
                seq![(fs[0].0@, nv)],
                transform_entries_spec(fs.drop_first(), vars, ress, rsvd),
            ),
            InterpOutcome::NotFound(m) => FieldsOutcome::FNotFound(m),
            InterpOutcome::Invalid(m) => FieldsOutcome::FInvalid(m),
        }
    }
}

/// What `transform_json` yields for a whole map: the fast path leaves a
/// map without markers untouched; otherwise the entries are rewritten.
pub open spec fn transform_json_spec(
    fs: Seq<(String, JVal)>,
    vars: Seq<(String, String)>,
    ress: Seq<(String, JVal)>,
    rsvd: Seq<(String, String)>,
) -> MapOutcome {
    if !map_needs_interp(fs) {
        MapOutcome::Unchanged
    } else {
        match transform_entries_spec(fs, vars, ress, rsvd) {
            FieldsOutcome::FDone(nfs) => MapOutcome::Changed(nfs),
            FieldsOutcome::FNotFound(m) => MapOutcome::MNotFound(m),
            FieldsOutcome::FInvalid(m) => MapOutcome::MInvalid(m),
        }
    }
}

fn map_has_marker(args: &Vec<(String, JVal)>) -> (r: bool)
    ensures
        r == map_needs_interp(args@),
{
    let mut i: usize = 0;
    while i < args.len()
        invariant
            i <= args@.len(),
            forall|x: int| 0 <= x < i ==> !jhas_marker(jview((#[trigger] args@[x]).1)),
        decreases args@.len() - i,
    {
        if jval_has_marker(&args[i].1) {
            proof {
                assert(jhas_marker(jview((args@[i as int]).1)));
            }
            return true;
        }
        i += 1;
    }
    false
}

fn transform_entries(args: &Vec<(String, JVal)>, env: &InterpEnv) -> (r: Result<
    Vec<(String, JVal)>,
    crate::error::Error,
>)
    ensures
        (match (r, transform_entries_spec(args@, env.variables@, env.resources@, env.reserved@)) {
            (Ok(out), FieldsOutcome::FDone(nfs)) => field_views(out@) == nfs,
            (Err(crate::error::Error::NotFound(m)), FieldsOutcome::FNotFound(ms)) => m@ == ms,
            (Err(crate::error::Error::InternalErr(m)), FieldsOutcome::FInvalid(ms)) => m@ == ms,
            _ => false,
        }),
{
    let ghost vars = env.variables@;
    let ghost ress = env.resources@;
    let ghost rsvd = env.reserved@;
    let mut out: Vec<(String, JVal)> = Vec::new();
    let mut i: usize = 0;
    proof {
        assert(args@.skip(0) =~= args@);
        assert(field_views(Seq::<(String, JVal)>::empty()) =~= Seq::<(Seq<char>, JView)>::empty());
        match transform_entries_spec(args@, vars, ress, rsvd) {
            FieldsOutcome::FDone(rest) => {
                assert(Seq::<(Seq<char>, JView)>::empty().add(rest) =~= rest);
            },
            _ => {},
        }
    }
    while i < args.len()
        invariant
            i <= args@.len(),
            vars == env.variables@,
            ress == env.resources@,
            rsvd == env.reserved@,
            prepend_fields(
                field_views(out@),
                transform_entries_spec(args@.skip(i as int), vars, ress, rsvd),
            ) == transform_entries_spec(args@, vars, ress, rsvd),
        decreases args@.len() - i,
    {
        let ghost cur = args@.skip(i as int);
        proof {
            assert(cur[0] == args@[i as int]);
            assert(cur.drop_first() =~= args@.skip(i as int + 1));
        }
        let k = args[i].0.clone();
        let nv = if jval_has_marker(&args[i].1) {
            let v0 = clone_jval(&args[i].1);
            match transform_json_value(k.as_str(), v0, env) {
                Ok(w) => w,
                Err(e) => {
                    return Err(e);
                },
            }
        } else {
            clone_jval(&args[i].1)
        };
        let ghost prev = out@;
        let ghost nvv = jview(nv);
        out.push((k, nv));
        proof {
            assert(out@ == prev.push(out@.last()));
            lemma_field_views_push(prev, out@.last());
            assert(field_views(out@) =~= field_views(prev).add(
                seq![(out@.last().0@, jview(out@.last().1))],
            ));
            lemma_prepend_assoc(
                field_views(prev),
                seq![(cur[0].0@, nvv)],
                transform_entries_spec(args@.skip(i as int + 1), vars, ress, rsvd),
            );
            assert(seq![(out@.last().0@, jview(out@.last().1))] =~= seq![(cur[0].0@, nvv)]);
        }
        i += 1;
    }
    proof {
        assert(args@.skip(i as int).len() == 0);
        match transform_entries_spec(args@, vars, ress, rsvd) {
            FieldsOutcome::FDone(all) => {
                assert(field_views(out@).add(Seq::<(Seq<char>, JView)>::empty()) =~= field_views(
                    out@,
                ));
            },
            _ => {},
        }
    }
    Ok(out)
}

/// Rewrites an argument map by resolving its placeholders, taking the fast
/// path when no value holds a marker: `Ok(None)` then says the map is
/// unchanged. Otherwise every entry is rewritten and returned, or the
/// first failure is reported.
pub fn transform_json(args: &Vec<(String, JVal)>, env: &InterpEnv) -> (r: Result<
    Option<Vec<(String, JVal)>>,
    crate::error::Error,
>)
    ensures
        (match (r, transform_json_spec(args@, env.variables@, env.resources@, env.reserved@)) {
            (Ok(None), MapOutcome::Unchanged) => true,
            (Ok(Some(out)), MapOutcome::Changed(nfs)) => field_views(out@) == nfs,
            (Err(crate::error::Error::NotFound(m)), MapOutcome::MNotFound(ms)) => m@ == ms,
            (Err(crate::error::Error::InternalErr(m)), MapOutcome::MInvalid(ms)) => m@ == ms,
            _ => false,
        }),
{
    if !map_has_marker(args) {
        return Ok(None);
    }
    match transform_entries(args, env) {
        Ok(out) => Ok(Some(out)),
        Err(e) => Err(e),
    }
}

/// Rewrites an argument map entry by entry, with no fast path: values with
/// markers are interpolated, the rest kept, and the whole map is returned.
pub fn transform_json_as_values(args: &Vec<(String, JVal)>, env: &InterpEnv) -> (r: Result<
    Vec<(String, JVal)>,
    crate::error::Error,
>)
    ensures
        (match (r, transform_entries_spec(args@, env.variables@, env.resources@, env.reserved@)) {
            (Ok(out), FieldsOutcome::FDone(nfs)) => field_views(out@) == nfs,
            (Err(crate::error::Error::NotFound(m)), FieldsOutcome::FNotFound(ms)) => m@ == ms,
            (Err(crate::error::Error::InternalErr(m)), FieldsOutcome::FInvalid(ms)) => m@ == ms,
            _ => false,
        }),
{
    transform_entries(args, env)
}

/// Rewrites a job's argument map when it has one: absent arguments stay
/// absent, and the fast path reports a marker-free map as unchanged.
pub fn build_args_map(args: &Option<Vec<(String, JVal)>>, env: &InterpEnv) -> (r: Result<
    Option<Vec<(String, JVal)>>,
    crate::error::Error,
>)
    ensures
        (match args {
            Some(a) => (match (r, transform_json_spec(
                a@,
                env.variables@,
                env.resources@,
                env.reserved@,
            )) {
                (Ok(None), MapOutcome::Unchanged) => true,
                (Ok(Some(out)), MapOutcome::Changed(nfs)) => field_views(out@) == nfs,
                (Err(crate::error::Error::NotFound(m)), MapOutcome::MNotFound(ms)) => m@ == ms,
                (Err(crate::error::Error::InternalErr(m)), MapOutcome::MInvalid(ms)) => m@ == ms,
                _ => false,
            }),
            None => r matches Ok(None),
        }),
{
    match args {
        Some(a) => transform_json(a, env),
        None => Ok(None),
    }
}

/// Rewrites a job's argument map into a plain map of values: absent
/// arguments give the empty map.
pub fn build_args_values(args: &Option<Vec<(String, JVal)>>, env: &InterpEnv) -> (r: Result<
    Vec<(String, JVal)>,
    crate::error::Error,
>)
    ensures
        (match args {
            Some(a) => (match (r, transform_entries_spec(
                a@,
                env.variables@,
                env.resources@,
                env.reserved@,
            )) {
                (Ok(out), FieldsOutcome::FDone(nfs)) => field_views(out@) == nfs,
                (Err(crate::error::Error::NotFound(m)), FieldsOutcome::FNotFound(ms)) => m@ == ms,
                (Err(crate::error::Error::InternalErr(m)), FieldsOutcome::FInvalid(ms)) => m@
                    == ms,
                _ => false,
            }),
            None => (match r {
                Ok(out) => out@.len() == 0,
                _ => false,
            }),
        }),
{
    match args {
        Some(a) => transform_entries(a, env),
        None => Ok(Vec::new()),
    }
}

/// A value without `$`-prefixed strings interpolates to itself.
pub proof fn lemma_no_dollar_fixed(
    name: Seq<char>,
    v: JView,
    vars: Seq<(String, String)>,
    ress: Seq<(String, JVal)>,
    rsvd: Seq<(String, String)>,
)
    requires
        no_dollar(v),
    ensures
        interp_value_spec(name, v, vars, ress, rsvd) == InterpOutcome::Done(v),
    decreases v,
{
    reveal_strlit("$var:");
    reveal_strlit("$res:");
    reveal_strlit("$");
    match v {
        JView::Str(s) => {
            if crate::text::starts_with_spec(s, "$var:"@) {
                assert(s.take(5)[0] == s[0]);
                assert(false);
            }
            if crate::text::starts_with_spec(s, "$res:"@) {
                assert(s.take(5)[0] == s[0]);
                assert(false);
            }
            if crate::text::starts_with_spec(s, "$"@) {
                assert(s.take(1)[0] == s[0]);
                assert(false);
            }
        },
        JView::Raw(_) => {},
        JView::Obj(fs) => {
            lemma_no_dollar_fields_fixed(fs, vars, ress, rsvd);
        },
    }
}

proof fn lemma_no_dollar_fields_fixed(
    fs: Seq<(Seq<char>, JView)>,
    vars: Seq<(String, String)>,
    ress: Seq<(String, JVal)>,
    rsvd: Seq<(String, String)>,
)
    requires
        forall|i: int| 0 <= i < fs.len() ==> no_dollar((#[trigger] fs[i]).1),
    ensures
        interp_fields_spec(fs, vars, ress, rsvd) == FieldsOutcome::FDone(fs),
    decreases fs,
{
    if fs.len() == 0 {
        assert(fs =~= Seq::<(Seq<char>, JView)>::empty());
    } else {
        lemma_no_dollar_fixed(fs[0].0, fs[0].1, vars, ress, rsvd);
        assert(forall|i: int|
            0 <= i < fs.drop_first().len() ==> no_dollar((#[trigger] fs.drop_first()[i]).1));
        lemma_no_dollar_fields_fixed(fs.drop_first(), vars, ress, rsvd);
        let p = fs[0];
        assert(fs[0] =~= (p.0, p.1));
        assert(seq![(fs[0].0, fs[0].1)].add(fs.drop_first()) =~= fs);
        assert(interp_value_spec(fs[0].0, fs[0].1, vars, ress, rsvd) == InterpOutcome::Done(
            fs[0].1,
        ));
        assert(interp_fields_spec(fs, vars, ress, rsvd) == prepend_fields(
            seq![(fs[0].0, fs[0].1)],
            interp_fields_spec(fs.drop_first(), vars, ress, rsvd),
        ));
        assert(interp_fields_spec(fs, vars, ress, rsvd) == FieldsOutcome::FDone(
            seq![(fs[0].0, fs[0].1)].add(fs.drop_first()),
        ));
    }
}

/// Interpolation is idempotent on values without `$`-prefixed strings:
/// such a value interpolates to itself, so interpolating the result again
/// returns the same value.
pub proof fn lemma_interpolate_idempotent(
    name: Seq<char>,
    v: JView,
    vars: Seq<(String, String)>,
    ress: Seq<(String, JVal)>,
    rsvd: Seq<(String, String)>,
)
    requires
        no_dollar(v),
    ensures
        interp_value_spec(name, v, vars, ress, rsvd) == InterpOutcome::Done(v),
        (match interp_value_spec(name, v, vars, ress, rsvd) {
            InterpOutcome::Done(w) => interp_value_spec(name, w, vars, ress, rsvd)
                == InterpOutcome::Done(w),
            _ => false,
        }),
{
    lemma_no_dollar_fixed(name, v, vars, ress, rsvd);
}

} // verus!
