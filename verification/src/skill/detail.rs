//! The skill-detail tool: one skill's detailed instructions, found by name.

use vstd::prelude::*;
use crate::text::{chars_eq, chars_of, push_str, string_of, string_views};

verus! {

/// `items` joined by `, `.
pub open spec fn comma_joined(items: Seq<Seq<char>>) -> Seq<char>
    decreases items.len(),
{
    if items.len() == 0 {
        Seq::empty()
    } else if items.len() == 1 {
        items[0]
    } else {
        comma_joined(items.drop_last()) + ", "@ + items.last()
    }
}

/// The index of the first skill called `name`.
pub open spec fn first_named(names: Seq<Seq<char>>, name: Seq<char>) -> Option<int>
    decreases names.len(),
{
    if names.len() == 0 {
        None
    } else {
        match first_named(names.drop_last(), name) {
            Some(i) => Some(i),
            None => if names.last() == name {
                Some(names.len() - 1)
            } else {
                None
            },
        }
    }
}

/// The reply for `name` given the skills' names and detailed descriptions:
/// a request for a name (with the available skills) when `name` is empty,
/// the first matching skill's description, or a not-found message with the
/// available skills.
pub open spec fn detail_reply(names: Seq<Seq<char>>, details: Seq<Seq<char>>, name: Seq<char>) -> Seq<char> {
    if name.len() == 0 {
        "Please provide a Skill name. Available Skills: "@ + comma_joined(names)
    } else {
        match first_named(names, name) {
            Some(i) => details[i],
            None => "Skill '"@ + name + "' not found. Available Skills: "@ + comma_joined(names),
        }
    }
}

proof fn lemma_first_named(names: Seq<Seq<char>>, name: Seq<char>)
    ensures
        first_named(names, name) matches Some(i) ==> 0 <= i < names.len() && names[i] == name,
    decreases names.len(),
{
    if names.len() > 0 {
        lemma_first_named(names.drop_last(), name);
    }
}

fn push_joined(out: &mut String, names: &Vec<String>)
    ensures
        final(out)@ == old(out)@ + comma_joined(string_views(names@)),
{
    let ghost start = out@;
    let mut i: usize = 0;
    assert(string_views(names@).take(0) =~= Seq::<Seq<char>>::empty());
    while i < names.len()
        invariant
            i <= names@.len(),
            out@ == start + comma_joined(string_views(names@).take(i as int)),
        decreases names@.len() - i,
    {
        let ghost before = out@;
        let ghost v = string_views(names@);
        assert(v.take(i + 1).drop_last() =~= v.take(i as int));
        assert(v.take(i + 1).last() == names@[i as int]@);
        if i > 0 {
            push_str(out, ", ");
        }
        push_str(out, names[i].as_str());
        proof {
            if i > 0 {
                assert(out@ =~= before + ", "@ + names@[i as int]@);
            }
        }
        i = i + 1;
    }
    assert(string_views(names@).take(i as int) =~= string_views(names@));
}

/// The reply of the skill-detail tool for `name`, given the registered
/// skills' `names` and their `details` (in the same order).
pub fn skill_detail_reply(names: &Vec<String>, details: &Vec<String>, name: &str) -> (r: String)
    requires
        details@.len() == names@.len(),
    ensures
        r@ == detail_reply(string_views(names@), string_views(details@), name@),
{
    let mut out = String::new();
    let n = chars_of(name);
    if n.len() == 0 {
        push_str(&mut out, "Please provide a Skill name. Available Skills: ");
        push_joined(&mut out, names);
        return out;
    }
    let mut i: usize = 0;
    assert(string_views(names@).take(0) =~= Seq::<Seq<char>>::empty());
    while i < names.len()
        invariant
            i <= names@.len(),
            details@.len() == names@.len(),
            n@ == name@,
            name@.len() > 0,
            first_named(string_views(names@).take(i as int), name@) is None,
        decreases names@.len() - i,
    {
        let ghost v = string_views(names@);
        assert(v.take(i + 1).drop_last() =~= v.take(i as int));
        if chars_eq(&chars_of(names[i].as_str()), &n) {
            proof {
                let t = v.take(i + 1);
                assert(first_named(t, name@) == Some(i as int));
                assert(first_named(v, name@) == Some(i as int)) by {
                    lemma_prefix_first(v, name@, i + 1);
                }
                assert(string_views(details@)[i as int] == details@[i as int]@);
            }
            let r = string_of(&chars_of(details[i].as_str()));
            assert(name@.len() > 0);
            assert(first_named(string_views(names@), name@) == Some(i as int));
            assert(r@ == string_views(details@)[i as int]);
            return r;
        }
        assert(first_named(v.take(i + 1), name@) is None);
        i = i + 1;
    }
    assert(string_views(names@).take(i as int) =~= string_views(names@));
    push_str(&mut out, "Skill '");
    push_str(&mut out, name);
    push_str(&mut out, "' not found. Available Skills: ");
    push_joined(&mut out, names);
    out
}

/// A name found among the first `k` names is the first found among all.
proof fn lemma_prefix_first(v: Seq<Seq<char>>, name: Seq<char>, k: int)
    requires
        0 <= k <= v.len(),
        first_named(v.take(k), name) is Some,
    ensures
        first_named(v, name) == first_named(v.take(k), name),
    decreases v.len() - k,
{
    if k < v.len() {
        assert(v.take(k + 1).drop_last() =~= v.take(k));
        lemma_prefix_first(v, name, k + 1);
    } else {
        assert(v.take(k) =~= v);
    }
}

} // verus!
