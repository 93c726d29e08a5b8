//! The decisions of the desktop interface: the records it exchanges, the order in which it
//! lists the user's templates, and the files it keeps them in.
use vstd::prelude::*;

use crate::text::{chars_of, lemma_text_le_total, lemma_text_le_trans, lowercase, lowercase_of, text_le, text_le_exec};

verus! {

/// A CSS template that the user saved.
#[derive(Debug)]
pub struct UserTemplate {
    pub name: String,
    pub description: String,
    pub css: String,
}

/// A custom metadata field as the interface edits it.
#[derive(Debug)]
pub struct MetadataEntry {
    pub key: String,
    pub value: String,
}

/// What the interface asks to extract: the PDF, and where the Markdown source and the CSS
/// template go.
#[derive(Debug)]
pub struct ExtractParams {
    pub input_path: String,
    pub output_path: String,
    pub css_output_path: String,
}

/// The key by which user templates are listed: the lowercase form of the name.
pub open spec fn name_key(t: UserTemplate) -> Seq<char> {
    lowercase(t.name@)
}

/// Whether a template's key is `k`.
pub open spec fn has_key(k: Seq<char>) -> spec_fn(UserTemplate) -> bool {
    |t: UserTemplate| name_key(t) == k
}

/// The templates are in the order of their keys.
pub open spec fn sorted_by_name(s: Seq<UserTemplate>) -> bool {
    forall|i: int, j: int| 0 <= i < j < s.len() ==> text_le(name_key(s[i]), name_key(s[j]))
}

proof fn lemma_filter_none(s: Seq<UserTemplate>, p: spec_fn(UserTemplate) -> bool)
    requires
        forall|i: int| 0 <= i < s.len() ==> !p(#[trigger] s[i]),
    ensures
        s.filter(p) == Seq::<UserTemplate>::empty(),
    decreases s.len(),
{
    reveal(Seq::filter);
    if s.len() > 0 {
        lemma_filter_none(s.drop_last(), p);
    }
}

proof fn lemma_filter_push(s: Seq<UserTemplate>, t: UserTemplate, p: spec_fn(UserTemplate) -> bool)
    ensures
        s.push(t).filter(p) == (if p(t) { s.filter(p).push(t) } else { s.filter(p) }),
{
    reveal(Seq::filter);
    assert(s.push(t).drop_last() =~= s);
}

/// Inserting `t` after the templates whose keys come before or equal its own, and before the
/// rest, keeps the templates in order and appends `t` to those with its key.
proof fn lemma_insert_sorted(out: Seq<UserTemplate>, j: int, t: UserTemplate)
    requires
        sorted_by_name(out),
        0 <= j <= out.len(),
        forall|m: int| 0 <= m < j ==> text_le(name_key(#[trigger] out[m]), name_key(t)),
        j < out.len() ==> !text_le(name_key(out[j]), name_key(t)),
    ensures
        sorted_by_name(out.insert(j, t)),
        forall|k: Seq<char>|
            #[trigger] out.insert(j, t).filter(has_key(k)) == (if name_key(t) == k {
                out.filter(has_key(k)).push(t)
            } else {
                out.filter(has_key(k))
            }),
{
    let kt = name_key(t);
    assert forall|m: int| j <= m < out.len() implies !text_le(name_key(#[trigger] out[m]), kt) by {
        if text_le(name_key(out[m]), kt) {
            if m > j {
                lemma_text_le_trans(name_key(out[j]), name_key(out[m]), kt);
            }
        }
    }
    let r = out.insert(j, t);
    assert forall|a: int, b: int| 0 <= a < b < r.len() implies text_le(name_key(r[a]), name_key(r[b])) by {
        if a == j {
            lemma_text_le_total(name_key(out[b - 1]), kt);
        } else if b == j {
        } else {
        }
    }
    let pre = out.subrange(0, j);
    let post = out.subrange(j, out.len() as int);
    assert(out =~= pre + post);
    assert(r =~= pre.push(t) + post);
    assert forall|k: Seq<char>|
        #[trigger] r.filter(has_key(k)) == (if kt == k {
            out.filter(has_key(k)).push(t)
        } else {
            out.filter(has_key(k))
        }) by {
        let p = has_key(k);
        Seq::filter_distributes_over_add(pre.push(t), post, p);
        Seq::filter_distributes_over_add(pre, post, p);
        lemma_filter_push(pre, t, p);
        if kt == k {
            assert forall|i: int| 0 <= i < post.len() implies !p(#[trigger] post[i]) by {
                assert(post[i] == out[j + i]);
                if name_key(post[i]) == kt {
                    lemma_text_le_total(kt, kt);
                }
            }
            lemma_filter_none(post, p);
            assert(pre.filter(p) + post.filter(p) =~= pre.filter(p));
            assert(pre.filter(p).push(t) + post.filter(p) =~= pre.filter(p).push(t));
        }
    }
}

/// The user's templates ordered by the lowercase form of their names; templates whose names
/// agree in lowercase keep the order in which they came.
pub fn sort_user_templates(templates: Vec<UserTemplate>) -> (r: Vec<UserTemplate>)
    ensures
        sorted_by_name(r@),
        forall|k: Seq<char>| #[trigger] r@.filter(has_key(k)) == templates@.filter(has_key(k)),
{
    let ghost input = templates@;
    let n = templates.len();
    let mut rest = templates;
    let mut out: Vec<UserTemplate> = Vec::new();
    let mut out_keys: Vec<Vec<char>> = Vec::new();
    let mut i: usize = 0;
    assert forall|k: Seq<char>| #[trigger] out@.filter(has_key(k)) == input.subrange(0, 0).filter(has_key(k)) by {
        reveal(Seq::filter);
        assert(input.subrange(0, 0) =~= out@);
    }
    while i < n
        invariant
            n == input.len(),
            i <= n,
            rest@ == input.subrange(i as int, n as int),
            out_keys.len() == out.len(),
            forall|m: int| 0 <= m < out.len() ==> (#[trigger] out_keys@[m])@ == name_key(out@[m]),
            sorted_by_name(out@),
            forall|k: Seq<char>| #[trigger] out@.filter(has_key(k)) == input.subrange(0, i as int).filter(has_key(k)),
        decreases n - i,
    {
        let t = rest.remove(0);
        assert(t == input[i as int]);
        let k = chars_of(lowercase_of(t.name.as_str()).as_str());
        let mut j: usize = 0;
        while j < out.len() && text_le_exec(&out_keys[j], &k)
            invariant
                j <= out.len(),
                out_keys.len() == out.len(),
                forall|m: int| 0 <= m < out.len() ==> (#[trigger] out_keys@[m])@ == name_key(out@[m]),
                k@ == name_key(t),
                forall|m: int| 0 <= m < j ==> text_le(name_key(#[trigger] out@[m]), name_key(t)),
            decreases out.len() - j,
        {
            j += 1;
        }
        let ghost old_out = out@;
        let ghost old_keys = out_keys@;
        proof {
            lemma_insert_sorted(old_out, j as int, t);
        }
        out.insert(j, t);
        out_keys.insert(j, k);
        assert forall|m: int| 0 <= m < out.len() implies (#[trigger] out_keys@[m])@ == name_key(out@[m]) by {
            if m < j {
                assert(out_keys@[m] == old_keys[m]);
            } else if m > j {
                assert(out_keys@[m] == old_keys[m - 1]);
            }
        }
        assert(input.subrange(0, i + 1) =~= input.subrange(0, i as int).push(input[i as int]));
        assert forall|kk: Seq<char>| #[trigger] out@.filter(has_key(kk)) == input.subrange(0, i + 1).filter(has_key(kk)) by {
            lemma_filter_push(input.subrange(0, i as int), input[i as int], has_key(kk));
        }
        i += 1;
        assert(rest@ =~= input.subrange(i as int, n as int));
    }
    assert(input.subrange(0, n as int) =~= input);
    out
}

}
