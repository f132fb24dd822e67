//! The `list_skills` tool: the registered skills, optionally of one
//! category, as a summary line per skill.

use vstd::prelude::*;
use crate::text::{chars_eq, chars_of, dec, push_dec, push_str, str_opt_view};

verus! {

/// What the listing shows of a registered skill.
pub struct SkillInfo {
    pub name: String,
    pub description: String,
    pub category: String,
    pub version: String,
    pub tags: Vec<String>,
    pub has_plan: bool,
    pub param_count: usize,
}

/// The skill is kept by the category filter.
pub open spec fn in_category(s: SkillInfo, category: Option<Seq<char>>) -> bool {
    match category {
        Some(c) => s.category@ == c,
        None => true,
    }
}

/// The indices of the skills kept by the category filter, in order.
pub open spec fn kept_indices(skills: Seq<SkillInfo>, category: Option<Seq<char>>) -> Seq<int>
    decreases skills.len(),
{
    if skills.len() == 0 {
        Seq::empty()
    } else if in_category(skills.last(), category) {
        kept_indices(skills.drop_last(), category).push(skills.len() - 1)
    } else {
        kept_indices(skills.drop_last(), category)
    }
}

/// The summary line of one skill: its name in bold, a template mark for a
/// skill with a plan, and its description.
pub open spec fn skill_line(s: SkillInfo) -> Seq<char> {
    "- **"@ + s.name@ + "**"@ + (if s.has_plan {
        " [\u{6a21}\u{677f}]"@
    } else {
        Seq::empty()
    }) + ": "@ + s.description@
}

/// The summary lines of the skills at `idx`, joined by newlines.
pub open spec fn skill_lines(skills: Seq<SkillInfo>, idx: Seq<int>) -> Seq<char>
    decreases idx.len(),
{
    if idx.len() == 0 {
        Seq::empty()
    } else if idx.len() == 1 {
        skill_line(skills[idx[0]])
    } else {
        skill_lines(skills, idx.drop_last()) + "\n"@ + skill_line(skills[idx.last()])
    }
}

pub open spec fn no_match_msg() -> Seq<char> {
    "\u{6ca1}\u{6709}\u{627e}\u{5230}\u{5339}\u{914d}\u{5206}\u{7c7b}\u{7684}\u{6280}\u{80fd}"@
}

pub open spec fn no_skills_msg() -> Seq<char> {
    "\u{5f53}\u{524d}\u{6ca1}\u{6709}\u{6ce8}\u{518c}\u{4efb}\u{4f55}\u{6280}\u{80fd}"@
}

/// The reply of `list_skills`: a message when no skill is kept (one for a
/// category without skills, another for an empty registry), else the count
/// and one line per kept skill.
pub open spec fn skills_summary(skills: Seq<SkillInfo>, category: Option<Seq<char>>) -> Seq<char> {
    let idx = kept_indices(skills, category);
    if idx.len() == 0 {
        if category is Some {
            no_match_msg()
        } else {
            no_skills_msg()
        }
    } else {
        "\u{53ef}\u{7528}\u{6280}\u{80fd} ("@ + dec(idx.len()) + " \u{4e2a}):\n"@ + skill_lines(skills, idx)
    }
}

pub open spec fn index_view(v: Seq<usize>) -> Seq<int> {
    v.map_values(|i: usize| i as int)
}

proof fn lemma_kept_below(skills: Seq<SkillInfo>, category: Option<Seq<char>>)
    ensures
        forall|k: int|
            0 <= k < kept_indices(skills, category).len() ==> 0 <= #[trigger] kept_indices(skills, category)[k]
                < skills.len(),
    decreases skills.len(),
{
    if skills.len() > 0 {
        lemma_kept_below(skills.drop_last(), category);
        let p = kept_indices(skills.drop_last(), category);
        let c = kept_indices(skills, category);
        assert forall|k: int| 0 <= k < c.len() implies 0 <= #[trigger] c[k] < skills.len() by {
            if k < p.len() {
                assert(c[k] == p[k]);
            }
        }
    }
}

/// The positions of the skills of `category` (all skills without one), in
/// order.
pub fn skills_in_category(skills: &Vec<SkillInfo>, category: Option<&str>) -> (r: Vec<usize>)
    ensures
        index_view(r@) == kept_indices(skills@, str_opt_view(category)),
{
    let mut r: Vec<usize> = Vec::new();
    let mut i: usize = 0;
    assert(skills@.take(0) =~= Seq::<SkillInfo>::empty());
    while i < skills.len()
        invariant
            i <= skills@.len(),
            index_view(r@) == kept_indices(skills@.take(i as int), str_opt_view(category)),
        decreases skills@.len() - i,
    {
        let ghost before = index_view(r@);
        let ghost t = skills@.take(i + 1);
        assert(t.drop_last() =~= skills@.take(i as int));
        assert(t.last() == skills@[i as int]);
        let keep = match category {
            Some(c) => chars_eq(&chars_of(skills[i].category.as_str()), &chars_of(c)),
            None => true,
        };
        if keep {
            r.push(i);
            assert(index_view(r@) =~= before.push(i as int));
        }
        i = i + 1;
    }
    assert(skills@.take(i as int) =~= skills@);
    r
}

/// The reply of `list_skills` for `skills`, filtered by `category`.
pub fn list_skills_summary(skills: &Vec<SkillInfo>, category: Option<&str>) -> (s: String)
    ensures
        s@ == skills_summary(skills@, str_opt_view(category)),
{
    let idx = skills_in_category(skills, category);
    let ghost iv = kept_indices(skills@, str_opt_view(category));
    proof {
        lemma_kept_below(skills@, str_opt_view(category));
    }
    let mut s = String::new();
    if idx.len() == 0 {
        match category {
            Some(_) => push_str(&mut s, "\u{6ca1}\u{6709}\u{627e}\u{5230}\u{5339}\u{914d}\u{5206}\u{7c7b}\u{7684}\u{6280}\u{80fd}"),
            None => push_str(&mut s, "\u{5f53}\u{524d}\u{6ca1}\u{6709}\u{6ce8}\u{518c}\u{4efb}\u{4f55}\u{6280}\u{80fd}"),
        }
        return s;
    }
    push_str(&mut s, "\u{53ef}\u{7528}\u{6280}\u{80fd} (");
    push_dec(&mut s, idx.len() as u64);
    push_str(&mut s, " \u{4e2a}):\n");
    let ghost head = s@;
    let mut k: usize = 0;
    assert(iv.take(0) =~= Seq::<int>::empty());
    while k < idx.len()
        invariant
            k <= idx@.len(),
            index_view(idx@) == iv,
            forall|j: int| 0 <= j < iv.len() ==> 0 <= #[trigger] iv[j] < skills@.len(),
            s@ == head + skill_lines(skills@, iv.take(k as int)),
        decreases idx@.len() - k,
    {
        let ghost before = s@;
        assert(iv.take(k + 1).drop_last() =~= iv.take(k as int));
        assert(iv.take(k + 1).last() == iv[k as int]);
        assert(idx@[k as int] as int == iv[k as int]);
        let sk = &skills[idx[k]];
        if k > 0 {
            push_str(&mut s, "\n");
        }
        push_str(&mut s, "- **");
        push_str(&mut s, sk.name.as_str());
        push_str(&mut s, "**");
        if sk.has_plan {
            push_str(&mut s, " [\u{6a21}\u{677f}]");
        }
        push_str(&mut s, ": ");
        push_str(&mut s, sk.description.as_str());
        proof {
            let line = skill_line(skills@[iv[k as int]]);
            if k > 0 {
                assert(s@ =~= before + "\n"@ + line);
            } else {
                assert(s@ =~= before + line);
            }
        }
        k = k + 1;
    }
    assert(iv.take(k as int) =~= iv);
    s
}

} // verus!
