//! Skills: markdown files with optional YAML frontmatter that extend the
//! system prompt. Splitting a file into frontmatter and body, building a
//! skill from its parsed frontmatter, merging project and global skills,
//! and formatting them for the prompt.
use vstd::prelude::*;

use crate::settings::str_eq;
use crate::text::{
    chars_of, extend_chars, find_seq, find_seq_from, has_prefix_at, join, join_chars,
    push_str_chars, seqs, slice_chars, starts_with_at, string_of, trim, trim_chars,
};

verus! {

/// A skill parsed from a markdown file.
#[derive(Debug, Clone, PartialEq, Eq)]
pub struct Skill {
    pub name: String,
    pub description: String,
    pub tools: Vec<String>,
    pub content: String,
}

/// What a skill file's YAML frontmatter may set.
#[derive(Debug, Clone, PartialEq, Eq)]
pub struct SkillFrontmatter {
    pub name: Option<String>,
    pub description: Option<String>,
    pub tools: Option<Vec<String>>,
}

impl Default for SkillFrontmatter {
    fn default() -> (f: SkillFrontmatter)
        ensures
            f.name is None,
            f.description is None,
            f.tools is None,
    {
        SkillFrontmatter { name: None, description: None, tools: None }
    }
}

/// Loads skills from the `skills` directories.
#[derive(Debug, Clone, Copy, PartialEq, Eq, Structural)]
pub struct SkillLoader;

// ---------------------------------------------------------------------
// Splitting frontmatter from body
// ---------------------------------------------------------------------
/// A file's frontmatter (if it has one) and body. The file is trimmed; a
/// frontmatter is what lies between an opening `---` and the first later
/// line starting `---`, trimmed, and the body is what follows that line's
/// `---`, trimmed. Without both delimiters the whole trimmed file is the
/// body.
pub open spec fn frontmatter_split(content: Seq<char>) -> (Option<Seq<char>>, Seq<char>) {
    let t = trim(content);
    if !has_prefix_at(t, 0, "---"@) {
        (None, t)
    } else {
        let after = t.subrange(3, t.len() as int);
        let end = find_seq(after, "\n---"@);
        if end >= 0 {
            (
                Some(trim(after.subrange(0, end))),
                trim(after.subrange(end + 4, after.len() as int)),
            )
        } else {
            (None, t)
        }
    }
}

/// Split content into (frontmatter, body) if a frontmatter exists.
pub fn split_frontmatter(content: &str) -> (r: (Option<String>, String))
    ensures
        (
            match r.0 {
                Some(f) => Some(f@),
                None => None,
            },
            r.1@,
        ) == frontmatter_split(content@),
{
    let cs = chars_of(content);
    let t = trim_chars(cs.as_slice());
    let dashes = chars_of("---");
    proof {
        reveal_strlit("---");
        reveal_strlit("\n---");
    }
    if !starts_with_at(t.as_slice(), 0, dashes.as_slice()) {
        return (None, string_of(t.as_slice()));
    }
    let after = slice_chars(t.as_slice(), 3, t.len());
    let delim = chars_of("\n---");
    proof {
        assert(after@.subrange(0, after@.len() as int) =~= after@);
    }
    match find_seq_from(after.as_slice(), 0, delim.as_slice()) {
        Some(end) => {
            proof {
                crate::text::lemma_find_seq(after@, delim@);
            }
            let fm = slice_chars(after.as_slice(), 0, end);
            let body = slice_chars(after.as_slice(), end + 4, after.len());
            let fm_t = trim_chars(fm.as_slice());
            let body_t = trim_chars(body.as_slice());
            (Some(string_of(fm_t.as_slice())), string_of(body_t.as_slice()))
        },
        None => (None, string_of(t.as_slice())),
    }
}

// ---------------------------------------------------------------------
// Building a skill
// ---------------------------------------------------------------------
/// `filename` without a trailing `.md`.
pub open spec fn stem(filename: Seq<char>) -> Seq<char> {
    if filename.len() >= 3 && filename.subrange(filename.len() - 3, filename.len() as int)
        == ".md"@ {
        filename.subrange(0, filename.len() - 3)
    } else {
        filename
    }
}

/// The skill a file makes: the frontmatter's name, or the file name
/// without `.md`; its description and tools, or empty ones; and the body
/// as content.
pub open spec fn skill_from(fm: SkillFrontmatter, body: Seq<char>, filename: Seq<char>, s: Skill) -> bool {
    &&& s.name@ == match fm.name {
        Some(n) => n@,
        None => stem(filename),
    }
    &&& s.description@ == match fm.description {
        Some(d) => d@,
        None => seq![],
    }
    &&& s.tools@ == match fm.tools {
        Some(ts) => ts@,
        None => Seq::<String>::empty(),
    }
    &&& s.content@ == body
}

/// Build a skill from its parsed frontmatter, its body, and its file name.
pub fn skill_from_parts(fm: SkillFrontmatter, body: &str, filename: &str) -> (s: Skill)
    ensures
        skill_from(fm, body@, filename@, s),
{
    let ghost fm0 = fm;
    let name = match fm.name {
        Some(n) => n,
        None => {
            let f = chars_of(filename);
            let md = chars_of(".md");
            if f.len() >= 3 && starts_with_at(f.as_slice(), f.len() - 3, md.as_slice()) {
                proof {
                    reveal_strlit(".md");
                }
                string_of(slice_chars(f.as_slice(), 0, f.len() - 3).as_slice())
            } else {
                proof {
                    reveal_strlit(".md");
                }
                string_of(f.as_slice())
            }
        },
    };
    let description = match fm.description {
        Some(d) => d,
        None => String::new(),
    };
    let tools = match fm.tools {
        Some(ts) => ts,
        None => Vec::new(),
    };
    Skill { name, description, tools, content: body.to_owned() }
}

// ---------------------------------------------------------------------
// Merging
// ---------------------------------------------------------------------
/// The position of the last skill named `name` in `skills`, or -1.
pub open spec fn last_named(skills: Seq<Skill>, name: Seq<char>) -> int
    decreases skills.len(),
{
    if skills.len() == 0 {
        -1
    } else if skills.last().name@ == name {
        skills.len() - 1
    } else {
        last_named(skills.drop_last(), name)
    }
}

/// `k` is the position of the last skill named `name` in `skills`.
pub open spec fn is_last_named(skills: Seq<Skill>, name: Seq<char>, k: int) -> bool {
    &&& 0 <= k < skills.len()
    &&& skills[k].name@ == name
    &&& forall|j: int| k < j < skills.len() ==> (#[trigger] skills[j]).name@ != name
}

/// `skills` holds a skill named `name`.
pub open spec fn has_named(skills: Seq<Skill>, name: Seq<char>) -> bool {
    exists|k: int| 0 <= k < skills.len() && (#[trigger] skills[k]).name@ == name
}

proof fn lemma_last_named(skills: Seq<Skill>, name: Seq<char>)
    ensures
        last_named(skills, name) >= 0 ==> is_last_named(skills, name, last_named(skills, name)),
        last_named(skills, name) < 0 ==> !has_named(skills, name),
        last_named(skills, name) >= -1,
    decreases skills.len(),
{
    if skills.len() > 0 {
        let d = skills.drop_last();
        lemma_last_named(d, name);
        if skills.last().name@ != name {
            let k = last_named(d, name);
            if k >= 0 {
                assert(skills[k] == d[k]);
                assert forall|j: int| k < j < skills.len() implies (#[trigger] skills[j]).name@ != name by {
                    if j < skills.len() - 1 {
                        assert(skills[j] == d[j]);
                    }
                }
            } else {
                if has_named(skills, name) {
                    let k2 = choose|k2: int| 0 <= k2 < skills.len() && (#[trigger] skills[k2]).name@ == name;
                    assert(d[k2] == skills[k2]);
                    assert(has_named(d, name));
                }
            }
        }
    }
}

/// The skill that wins for `name`: the last project skill so named, else
/// the last global one, else none.
pub open spec fn winner(project: Seq<Skill>, global: Seq<Skill>, name: Seq<char>) -> Option<Skill> {
    if last_named(project, name) >= 0 {
        Some(project[last_named(project, name)])
    } else if last_named(global, name) >= 0 {
        Some(global[last_named(global, name)])
    } else {
        None
    }
}

/// `merged` holds one skill per name, each the one `w` picks for its
/// name, and a skill for every name `w` picks one for.
pub open spec fn merged_by(merged: Seq<Skill>, w: spec_fn(Seq<char>) -> Option<Skill>) -> bool {
    &&& forall|i: int, j: int| 0 <= i < j < merged.len() ==> merged[i].name@ != merged[j].name@
    &&& forall|i: int| 0 <= i < merged.len() ==> w(#[trigger] merged[i].name@) == Some(merged[i])
    &&& forall|name: Seq<char>| #[trigger] w(name) is Some ==> exists|i: int|
        0 <= i < merged.len() && merged[i].name@ == name
}

/// `merged` holds, once each, the winning skill of every name that
/// `project` or `global` holds, and nothing else.
pub open spec fn merged_from(project: Seq<Skill>, global: Seq<Skill>, merged: Seq<Skill>) -> bool {
    merged_by(merged, |name: Seq<char>| winner(project, global, name))
}

/// `w` with `skill` picked for its own name.
pub open spec fn overridden(w: spec_fn(Seq<char>) -> Option<Skill>, skill: Skill) -> spec_fn(Seq<char>) -> Option<Skill> {
    |name: Seq<char>| if name == skill.name@ {
        Some(skill)
    } else {
        w(name)
    }
}

proof fn lemma_last_named_push(skills: Seq<Skill>, k: int, name: Seq<char>)
    requires
        0 <= k < skills.len(),
    ensures
        last_named(skills.take(k + 1), name) == if skills[k].name@ == name {
            k
        } else {
            last_named(skills.take(k), name)
        },
{
    assert(skills.take(k + 1).drop_last() =~= skills.take(k));
    assert(skills.take(k + 1).last() == skills[k]);
}

proof fn lemma_last_named_range(skills: Seq<Skill>, name: Seq<char>)
    ensures
        -1 <= last_named(skills, name) < skills.len(),
    decreases skills.len(),
{
    if skills.len() > 0 {
        lemma_last_named_range(skills.drop_last(), name);
    }
}

/// Put `skill` into `acc`, replacing the entry of the same name if there
/// is one, else appending it.
fn upsert(acc: &mut Vec<Skill>, skill: Skill, Ghost(w): Ghost<spec_fn(Seq<char>) -> Option<Skill>>)
    requires
        merged_by(old(acc)@, w),
    ensures
        merged_by(final(acc)@, overridden(w, skill)),
{
    let ghost w2 = overridden(w, skill);
    let mut i: usize = 0;
    while i < acc.len()
        invariant
            i <= acc@.len(),
            acc@ == old(acc)@,
            merged_by(acc@, w),
            w2 == overridden(w, skill),
            forall|j: int| 0 <= j < i ==> (#[trigger] acc@[j]).name@ != skill.name@,
        decreases acc.len() - i,
    {
        if str_eq(acc[i].name.as_str(), skill.name.as_str()) {
            let ghost before = acc@;
            acc.set(i, skill);
            proof {
                assert forall|a: int, b: int| 0 <= a < b < acc@.len() implies acc@[a].name@ != acc@[b].name@ by {
                    if a != i && b != i {
                        assert(acc@[a] == before[a] && acc@[b] == before[b]);
                    } else if a == i {
                        assert(acc@[b] == before[b]);
                    } else {
                        assert(acc@[a] == before[a]);
                    }
                }
                assert forall|a: int| 0 <= a < acc@.len() implies w2(#[trigger] acc@[a].name@) == Some(acc@[a]) by {
                    if a != i {
                        assert(acc@[a] == before[a]);
                        assert(before[a].name@ != before[i as int].name@);
                    }
                }
                assert forall|name: Seq<char>| #[trigger] w2(name) is Some implies exists|a: int| 0 <= a < acc@.len() && acc@[a].name@ == name by {
                    if name == skill.name@ {
                        assert(acc@[i as int].name@ == name);
                    } else {
                        assert(w(name) is Some);
                        let a = choose|a: int| 0 <= a < before.len() && before[a].name@ == name;
                        assert(a != i);
                        assert(acc@[a] == before[a]);
                    }
                }
            }
            return;
        }
        i = i + 1;
    }
    let ghost before = acc@;
    acc.push(skill);
    proof {
        let n = before.len() as int;
        assert forall|a: int, b: int| 0 <= a < b < acc@.len() implies acc@[a].name@ != acc@[b].name@ by {
            assert(acc@[a] == before[a]);
            if b < n {
                assert(acc@[b] == before[b]);
            }
        }
        assert forall|a: int| 0 <= a < acc@.len() implies w2(#[trigger] acc@[a].name@) == Some(acc@[a]) by {
            if a < n {
                assert(acc@[a] == before[a]);
            }
        }
        assert forall|name: Seq<char>| #[trigger] w2(name) is Some implies exists|a: int| 0 <= a < acc@.len() && acc@[a].name@ == name by {
            if name == skill.name@ {
                assert(acc@[n].name@ == name);
            } else {
                assert(w(name) is Some);
                let a = choose|a: int| 0 <= a < before.len() && before[a].name@ == name;
                assert(acc@[a] == before[a]);
            }
        }
    }
}

/// Merging keeps one skill per name, for exactly the names the two
/// sources hold: a project skill overrides any global one of its name,
/// and within one source the last skill of a name wins.
pub proof fn lemma_merge_law(project: Seq<Skill>, global: Seq<Skill>, merged: Seq<Skill>)
    requires
        merged_from(project, global, merged),
    ensures
        forall|i: int, j: int| 0 <= i < j < merged.len() ==> merged[i].name@ != merged[j].name@,
        forall|name: Seq<char>|
            has_named(merged, name) <==> (has_named(project, name) || has_named(global, name)),
        forall|i: int|
            0 <= i < merged.len() ==> {
                let name = (#[trigger] merged[i]).name@;
                ||| exists|k: int| is_last_named(project, name, k) && merged[i] == project[k]
                ||| !has_named(project, name) && exists|k: int| is_last_named(global, name, k) && merged[i] == global[k]
            },
{
    let w = |name: Seq<char>| winner(project, global, name);
    assert forall|name: Seq<char>| has_named(merged, name) <==> (has_named(project, name) || has_named(global, name)) by {
        lemma_last_named(project, name);
        lemma_last_named(global, name);
        if has_named(merged, name) {
            let i = choose|i: int| 0 <= i < merged.len() && (#[trigger] merged[i]).name@ == name;
            assert(w(merged[i].name@) == Some(merged[i]));
        }
        if has_named(project, name) || has_named(global, name) {
            assert(w(name) is Some);
            let i = choose|i: int| 0 <= i < merged.len() && merged[i].name@ == name;
            assert(merged[i].name@ == name);
        }
    }
    assert forall|i: int| 0 <= i < merged.len() implies {
        let name = (#[trigger] merged[i]).name@;
        ||| exists|k: int| is_last_named(project, name, k) && merged[i] == project[k]
        ||| !has_named(project, name) && exists|k: int| is_last_named(global, name, k) && merged[i] == global[k]
    } by {
        let name = merged[i].name@;
        lemma_last_named(project, name);
        lemma_last_named(global, name);
        assert(w(name) == Some(merged[i]));
        if last_named(project, name) >= 0 {
            let k = last_named(project, name);
            assert(is_last_named(project, name, k) && merged[i] == project[k]);
        } else {
            let k = last_named(global, name);
            assert(is_last_named(global, name, k) && merged[i] == global[k]);
        }
    }
}

impl SkillLoader {
    /// Merge project and global skills: one skill per name, a project skill
    /// overriding a global one of the same name, and among skills of one
    /// source the later overriding the earlier.
    pub fn merge(project: Vec<Skill>, global: Vec<Skill>) -> (r: Vec<Skill>)
        ensures
            merged_from(project@, global@, r@),
    {
        let ghost p = project@;
        let ghost g = global@;
        let mut acc: Vec<Skill> = Vec::new();
        let mut rest = global;
        let n = rest.len();
        let mut k: usize = 0;
        proof {
            let w0 = |name: Seq<char>| winner(Seq::<Skill>::empty(), g.take(0), name);
            assert forall|name: Seq<char>| !(#[trigger] w0(name) is Some) by {
                assert(g.take(0).len() == 0);
            }
        }
        while k < n
            invariant
                n == g.len(),
                k <= n,
                rest@ == g.subrange(k as int, n as int),
                merged_by(acc@, |name: Seq<char>| winner(Seq::<Skill>::empty(), g.take(k as int), name)),
            decreases n - k,
        {
            let s = rest.remove(0);
            let ghost w0 = |name: Seq<char>| winner(Seq::<Skill>::empty(), g.take(k as int), name);
            let ghost w1 = |name: Seq<char>| winner(Seq::<Skill>::empty(), g.take(k + 1), name);
            assert(s == g[k as int]);
            upsert(&mut acc, s, Ghost(w0));
            proof {
                assert forall|name: Seq<char>| #[trigger] w1(name) == overridden(w0, s)(name) by {
                    lemma_last_named_push(g, k as int, name);
                    assert(last_named(Seq::<Skill>::empty(), name) == -1);
                    assert(g.take(k + 1)[k as int] == g[k as int]);
                    if s.name@ != name {
                        lemma_last_named_range(g.take(k as int), name);
                        if last_named(g.take(k as int), name) >= 0 {
                            assert(g.take(k + 1)[last_named(g.take(k as int), name)] == g.take(k as int)[last_named(g.take(k as int), name)]);
                        }
                    }
                }
                assert(w1 =~= overridden(w0, s));
            }
            assert(rest@ =~= g.subrange(k + 1, n as int));
            k = k + 1;
        }
        assert(g.take(n as int) =~= g);
        let mut rest = project;
        let m = rest.len();
        let mut k: usize = 0;
        proof {
            assert(p.take(0) =~= Seq::<Skill>::empty());
        }
        while k < m
            invariant
                m == p.len(),
                k <= m,
                rest@ == p.subrange(k as int, m as int),
                merged_by(acc@, |name: Seq<char>| winner(p.take(k as int), g, name)),
            decreases m - k,
        {
            let s = rest.remove(0);
            let ghost w0 = |name: Seq<char>| winner(p.take(k as int), g, name);
            let ghost w1 = |name: Seq<char>| winner(p.take(k + 1), g, name);
            assert(s == p[k as int]);
            upsert(&mut acc, s, Ghost(w0));
            proof {
                assert forall|name: Seq<char>| #[trigger] w1(name) == overridden(w0, s)(name) by {
                    lemma_last_named_push(p, k as int, name);
                    assert(p.take(k + 1)[k as int] == p[k as int]);
                    if s.name@ != name {
                        lemma_last_named_range(p.take(k as int), name);
                        if last_named(p.take(k as int), name) >= 0 {
                            assert(p.take(k + 1)[last_named(p.take(k as int), name)] == p.take(k as int)[last_named(p.take(k as int), name)]);
                        }
                    }
                }
                assert(w1 =~= overridden(w0, s));
            }
            assert(rest@ =~= p.subrange(k + 1, m as int));
            k = k + 1;
        }
        assert(p.take(m as int) =~= p);
        acc
    }
}

// ---------------------------------------------------------------------
// Prompt text
// ---------------------------------------------------------------------
/// One skill's section of the prompt: a `###` heading with its name, its
/// description in italics and its tools when it has them, then its
/// content.
pub open spec fn skill_section(s: Skill) -> Seq<char> {
    "### "@ + s.name@ + seq!['\n'] + (if s.description@.len() > 0 {
        seq!['_'] + s.description@ + "_\n\n"@
    } else {
        seq![]
    }) + (if s.tools@.len() > 0 {
        "**Tools:** "@ + join(s.tools@.map_values(|t: String| t@), ", "@) + "\n\n"@
    } else {
        seq![]
    }) + s.content@
}

/// A skill's section opens with its `###` heading and, when it has a
/// description, the description in underscores on the next line, however
/// many tools it lists; the section ends with the skill's content, after
/// the line naming its tools when it has any. Two
/// skills with the same name and description open the same way whatever
/// their tools.
pub proof fn lemma_section_shows_the_description(s: Skill, other: Skill)
    ensures
        s.description@.len() > 0 ==> has_prefix_at(
            skill_section(s),
            0,
            "### "@ + s.name@ + seq!['\n', '_'] + s.description@ + seq!['_', '\n'],
        ),
        s.tools@.len() > 0 ==> ({
            let tail = "**Tools:** "@ + join(s.tools@.map_values(|t: String| t@), ", "@) + "\n\n"@ + s.content@;
            &&& skill_section(s).len() >= tail.len()
            &&& skill_section(s).subrange(skill_section(s).len() - tail.len(), skill_section(s).len() as int) == tail
        }),
        skill_section(s).len() >= s.content@.len(),
        skill_section(s).subrange(skill_section(s).len() - s.content@.len(), skill_section(s).len() as int)
            == s.content@,
        other.name@ == s.name@ && other.description@ == s.description@ && s.description@.len() > 0
            ==> skill_section(other).take(("### "@ + s.name@ + seq!['\n', '_'] + s.description@ + seq!['_']).len() as int)
            == skill_section(s).take(("### "@ + s.name@ + seq!['\n', '_'] + s.description@ + seq!['_']).len() as int),
{
    reveal_strlit("### ");
    reveal_strlit("_\n\n");
    let head = "### "@ + s.name@ + seq!['\n'];
    let sec = skill_section(s);
    if s.description@.len() > 0 {
        let want = "### "@ + s.name@ + seq!['\n', '_'] + s.description@ + seq!['_', '\n'];
        assert(sec.subrange(0, want.len() as int) =~= want);
        if other.name@ == s.name@ && other.description@ == s.description@ {
            let n = ("### "@ + s.name@ + seq!['\n', '_'] + s.description@ + seq!['_']).len() as int;
            assert(skill_section(other).take(n) =~= sec.take(n));
        }
    }
    let tail = s.content@;
    assert(sec.subrange(sec.len() - tail.len(), sec.len() as int) =~= tail);
    if s.tools@.len() > 0 {
        let t2 = "**Tools:** "@ + join(s.tools@.map_values(|t: String| t@), ", "@) + "\n\n"@ + s.content@;
        assert(sec.subrange(sec.len() - t2.len(), sec.len() as int) =~= t2);
    }
}

/// The skills' sections separated by horizontal rules; empty for no
/// skills.
pub open spec fn skills_prompt(skills: Seq<Skill>) -> Seq<char> {
    join(skills.map_values(|s: Skill| skill_section(s)), "\n\n---\n\n"@)
}

fn section_text(skill: &Skill) -> (r: Vec<char>)
    ensures
        r@ == skill_section(*skill),
{
    let mut out = chars_of("### ");
    push_str_chars(&mut out, skill.name.as_str());
    out.push('\n');
    let ghost head = out@;
    if !skill.description.as_str().is_empty() {
        out.push('_');
        push_str_chars(&mut out, skill.description.as_str());
        push_str_chars(&mut out, "_\n\n");
    }
    let ghost with_desc = out@;
    let ghost desc_part = if skill.description@.len() > 0 {
        seq!['_'] + skill.description@ + "_\n\n"@
    } else {
        seq![]
    };
    assert(with_desc =~= head + desc_part);
    if skill.tools.len() > 0 {
        push_str_chars(&mut out, "**Tools:** ");
        let mut names: Vec<Vec<char>> = Vec::new();
        let mut i: usize = 0;
        while i < skill.tools.len()
            invariant
                i <= skill.tools@.len(),
                seqs(names@) == skill.tools@.take(i as int).map_values(|t: String| t@),
            decreases skill.tools.len() - i,
        {
            let ghost before = seqs(names@);
            names.push(chars_of(skill.tools[i].as_str()));
            assert(seqs(names@) =~= before.push(skill.tools@[i as int]@));
            assert(skill.tools@.take(i + 1).map_values(|t: String| t@) =~= skill.tools@.take(
                i as int,
            ).map_values(|t: String| t@).push(skill.tools@[i as int]@));
            i = i + 1;
        }
        assert(skill.tools@.take(skill.tools@.len() as int) =~= skill.tools@);
        let sep = chars_of(", ");
        let joined = join_chars(&names, sep.as_slice());
        extend_chars(&mut out, joined.as_slice());
        push_str_chars(&mut out, "\n\n");
    }
    let ghost tools_part = if skill.tools@.len() > 0 {
        "**Tools:** "@ + join(skill.tools@.map_values(|t: String| t@), ", "@) + "\n\n"@
    } else {
        seq![]
    };
    assert(out@ =~= head + desc_part + tools_part);
    push_str_chars(&mut out, skill.content.as_str());
    assert(out@ =~= head + desc_part + tools_part + skill.content@);
    out
}

/// Format skills into a string for the system prompt.
pub fn format_skills_for_prompt(skills: &[Skill]) -> (r: String)
    ensures
        r@ == skills_prompt(skills@),
        skills@.len() == 0 ==> r@.len() == 0,
{
    let mut parts: Vec<Vec<char>> = Vec::new();
    let mut i: usize = 0;
    while i < skills.len()
        invariant
            i <= skills@.len(),
            seqs(parts@) == skills@.take(i as int).map_values(|s: Skill| skill_section(s)),
        decreases skills.len() - i,
    {
        let ghost before = seqs(parts@);
        parts.push(section_text(&skills[i]));
        assert(seqs(parts@) =~= before.push(skill_section(skills@[i as int])));
        assert(skills@.take(i + 1).map_values(|s: Skill| skill_section(s)) =~= skills@.take(
            i as int,
        ).map_values(|s: Skill| skill_section(s)).push(skill_section(skills@[i as int])));
        i = i + 1;
    }
    assert(skills@.take(skills@.len() as int) =~= skills@);
    let sep = chars_of("\n\n---\n\n");
    let r = join_chars(&parts, sep.as_slice());
    string_of(r.as_slice())
}

} // verus!
