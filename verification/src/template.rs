//! Message templates: literal replacement of `{key}` tokens from a
//! variable map. Unresolved keys stay in the text verbatim; a later
//! binding of the same key wins.

use vstd::prelude::*;

use crate::strutil::{find_char, first_idx, lemma_first_idx_is, lemma_first_idx_none, str_eq,
    substring};

verus! {

/// The value bound to `key`, taking the latest binding.
pub open spec fn lookup(vars: Seq<(Seq<char>, Seq<char>)>, key: Seq<char>) -> Option<Seq<char>>
    decreases vars.len(),
{
    if vars.len() == 0 {
        None
    } else if vars.last().0 == key {
        Some(vars.last().1)
    } else {
        lookup(vars.drop_last(), key)
    }
}

/// `t` with every `{key}` token replaced by its bound value: text up to
/// the first `{` is kept; a `{` without a later `}` ends substitution;
/// otherwise the token is replaced when its key is bound and kept
/// verbatim when not, and the rest follows the same rule. (The bounds
/// tests around the token merely keep termination evident.)
pub open spec fn rendered(t: Seq<char>, vars: Seq<(Seq<char>, Seq<char>)>) -> Seq<char>
    decreases t.len(),
{
    if t.len() == 0 {
        t
    } else if t[0] != '{' {
        seq![t[0]] + rendered(t.drop_first(), vars)
    } else {
        let j = first_idx(t.drop_first(), '}');
        if j == -1 {
            t
        } else if 0 <= j && j + 2 <= t.len() {
            let key = t.subrange(1, j + 1);
            let tail = t.subrange(j + 2, t.len() as int);
            (match lookup(vars, key) {
                Some(v) => v,
                None => t.subrange(0, j + 2),
            }) + rendered(tail, vars)
        } else {
            t
        }
    }
}

/// The variable map for one rendering pass.
pub struct TemplateVars {
    /// The bindings, oldest first; a later binding of a key shadows an
    /// earlier one.
    pub pairs: Vec<(String, String)>,
}

impl TemplateVars {
    /// An empty map.
    pub fn new() -> (r: TemplateVars)
        ensures
            r.pairs@.len() == 0,
    {
        TemplateVars { pairs: Vec::new() }
    }

    /// Bind `key` to `value`, shadowing any earlier binding.
    pub fn insert(&mut self, key: &str, value: String)
        ensures
            final(self).pairs.deep_view() == old(self).pairs.deep_view().push((key@, value@)),
    {
        let ghost prev = self.pairs.deep_view();
        self.pairs.push((key.to_owned(), value));
        proof {
            assert(self.pairs.deep_view() =~= prev.push((key@, self.pairs@.last().1@)));
        }
    }

    /// The value bound to `key`, taking the latest binding.
    pub fn get(&self, key: &str) -> (r: Option<&String>)
        ensures
            match r {
                Some(v) => lookup(self.pairs.deep_view(), key@) == Some(v@),
                None => lookup(self.pairs.deep_view(), key@) is None,
            },
    {
        let mut i: usize = self.pairs.len();
        proof {
            assert(self.pairs.deep_view().subrange(0, i as int) =~= self.pairs.deep_view());
        }
        while i > 0
            invariant
                0 <= i <= self.pairs@.len(),
                lookup(self.pairs.deep_view(), key@) == lookup(
                    self.pairs.deep_view().subrange(0, i as int),
                    key@,
                ),
            decreases i,
        {
            i -= 1;
            proof {
                let dv = self.pairs.deep_view();
                assert(dv.subrange(0, i + 1).last() == dv[i as int]);
                assert(self.pairs.deep_view().subrange(0, i + 1).drop_last()
                    =~= self.pairs.deep_view().subrange(0, i as int));
                assert(self.pairs.deep_view()[i as int].0 == self.pairs@[i as int].0@);
            }
            if str_eq(self.pairs[i].0.as_str(), key) {
                return Some(&self.pairs[i].1);
            }
        }
        proof {
            assert(self.pairs.deep_view().subrange(0, 0) =~= Seq::<(Seq<char>, Seq<char>)>::empty());
        }
        None
    }
}

/// Peeling plain text off the front of a template commutes with
/// rendering.
proof fn lemma_rendered_step(t: Seq<char>, vars: Seq<(Seq<char>, Seq<char>)>, i: int)
    requires
        0 <= i < t.len(),
        t[i] == '{',
        forall|k: int| 0 <= k < i ==> t[k] != '{',
    ensures
        ({
            let u = t.subrange(i, t.len() as int);
            let j = first_idx(u.drop_first(), '}');
            if j == -1 {
                rendered(t, vars) == t
            } else {
                rendered(t, vars) == t.subrange(0, i) + (match lookup(vars, u.subrange(1, j + 1)) {
                    Some(v) => v,
                    None => u.subrange(0, j + 2),
                }) + rendered(u.subrange(j + 2, u.len() as int), vars)
            }
        }),
    decreases i,
{
    let u = t.subrange(i, t.len() as int);
    let j = first_idx(u.drop_first(), '}');
    crate::strutil::lemma_first_idx_bounds(u.drop_first(), '}');
    if i == 0 {
        assert(u =~= t);
        assert(u.drop_first() =~= t.drop_first());
        if j != -1 {
            assert(j + 2 <= t.len());
            assert(u.subrange(1, j + 1) =~= t.subrange(1, j + 1));
            assert(u.subrange(0, j + 2) =~= t.subrange(0, j + 2));
            assert(u.subrange(j + 2, u.len() as int) =~= t.subrange(j + 2, t.len() as int));
            assert(t.subrange(0, 0) =~= Seq::<char>::empty());
            assert(rendered(t, vars) == t.subrange(0, 0) + (match lookup(
                vars,
                u.subrange(1, j + 1),
            ) {
                Some(v) => v,
                None => u.subrange(0, j + 2),
            }) + rendered(u.subrange(j + 2, u.len() as int), vars)) by {
                assert(t.subrange(0, 0) + (match lookup(vars, u.subrange(1, j + 1)) {
                    Some(v) => v,
                    None => u.subrange(0, j + 2),
                }) =~= (match lookup(vars, u.subrange(1, j + 1)) {
                    Some(v) => v,
                    None => u.subrange(0, j + 2),
                }));
            }
        }
    } else {
        let t2 = t.drop_first();
        assert(t2[i - 1] == '{');
        assert(forall|k: int| 0 <= k < i - 1 ==> t2[k] != '{');
        lemma_rendered_step(t2, vars, i - 1);
        assert(t2.subrange(i - 1, t2.len() as int) =~= u);
        assert(rendered(t, vars) == seq![t[0]] + rendered(t2, vars));
        if j == -1 {
            assert(seq![t[0]] + t2 =~= t);
        } else {
            assert(seq![t[0]] + (t2.subrange(0, i - 1) + (match lookup(
                vars,
                u.subrange(1, j + 1),
            ) {
                Some(v) => v,
                None => u.subrange(0, j + 2),
            }) + rendered(u.subrange(j + 2, u.len() as int), vars)) =~= t.subrange(0, i) + (
            match lookup(vars, u.subrange(1, j + 1)) {
                Some(v) => v,
                None => u.subrange(0, j + 2),
            }) + rendered(u.subrange(j + 2, u.len() as int), vars));
        }
    }
}

/// A template without `{` renders as itself.
proof fn lemma_rendered_plain(t: Seq<char>, vars: Seq<(Seq<char>, Seq<char>)>)
    requires
        forall|k: int| 0 <= k < t.len() ==> t[k] != '{',
    ensures
        rendered(t, vars) == t,
    decreases t.len(),
{
    if t.len() > 0 {
        assert(forall|k: int| 0 <= k < t.drop_first().len() ==> t.drop_first()[k] != '{');
        lemma_rendered_plain(t.drop_first(), vars);
        assert(seq![t[0]] + t.drop_first() =~= t);
    }
}

/// Render `template` with the variable map: every `{key}` token whose
/// key is bound becomes its value; unresolved tokens stay verbatim.
pub fn apply_templating(template: &str, vars: &TemplateVars) -> (r: String)
    ensures
        r@ == rendered(template@, vars.pairs.deep_view()),
{
    let ghost vv = vars.pairs.deep_view();
    let mut out = String::new();
    let mut rem: String = template.to_owned();
    proof {
        assert(out@ + rendered(rem@, vv) =~= rendered(template@, vv));
    }
    loop
        invariant
            out@ + rendered(rem@, vv) == rendered(template@, vv),
            vv == vars.pairs.deep_view(),
        decreases rem@.len(),
    {
        let rlen = rem.as_str().unicode_len();
        match find_char(rem.as_str(), '{') {
            None => {
                proof {
                    lemma_rendered_plain(rem@, vv);
                }
                out.append(rem.as_str());
                return out;
            },
            Some(i) => {
                proof {
                    lemma_rendered_step(rem@, vv, i as int);
                }
                let u = substring(rem.as_str(), i, rlen);
                let ulen = rlen - i;
                let after_brace = substring(u.as_str(), 1, ulen);
                match find_char(after_brace.as_str(), '}') {
                    None => {
                        proof {
                            lemma_first_idx_none(u@.drop_first(), '}');
                            assert(after_brace@ =~= u@.drop_first());
                            lemma_first_idx_none(after_brace@, '}');
                        }
                        out.append(rem.as_str());
                        return out;
                    },
                    Some(j) => {
                        proof {
                            assert(after_brace@ =~= u@.drop_first());
                            lemma_first_idx_is(u@.drop_first(), '}', j as int);
                        }
                        let key = substring(u.as_str(), 1, j + 1);
                        let before = substring(rem.as_str(), 0, i);
                        out.append(before.as_str());
                        match vars.get(key.as_str()) {
                            Some(v) => {
                                out.append(v.as_str());
                            },
                            None => {
                                let verbatim = substring(u.as_str(), 0, j + 2);
                                out.append(verbatim.as_str());
                            },
                        }
                        let tail = substring(u.as_str(), j + 2, ulen);
                        rem = tail;
                    },
                }
            },
        }
    }
}

} // verus!
