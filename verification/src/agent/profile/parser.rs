//! The profile parser: a markdown document with frontmatter becomes an
//! `AgentProfile`.

use crate::text::{
    chars_of, clone_strings, find_char, index_of, lemma_index_of_found, lemma_trimmed_end_prefix,
    lemma_trimmed_prefix, lemma_trimmed_start_head, rows, same_chars, split, split_at_char,
    starts_with, string_of, strings_of, strip, stripped, subvec, texts, trim, trimmed,
    trimmed_start,
};
use vstd::prelude::*;

verus! {

/// A parsed agent profile.
#[derive(Debug)]
pub struct AgentProfile {
    /// Unique name of the agent.
    pub name: String,
    /// Description, which the router matches requests against.
    pub description: String,
    /// Names of the tools the agent may use.
    pub tools: Vec<String>,
    /// Model preference, such as "default", "fast" or "powerful".
    pub model_preference: String,
    /// The system prompt: everything after the frontmatter.
    pub system_prompt: String,
}

/// An agent profile as plain text values.
pub struct ProfileModel {
    pub name: Seq<char>,
    pub description: Seq<char>,
    pub tools: Seq<Seq<char>>,
    pub model_preference: Seq<char>,
    pub system_prompt: Seq<char>,
}

impl View for AgentProfile {
    type V = ProfileModel;

    open spec fn view(&self) -> ProfileModel {
        ProfileModel {
            name: self.name@,
            description: self.description@,
            tools: texts(self.tools@),
            model_preference: self.model_preference@,
            system_prompt: self.system_prompt@,
        }
    }
}

impl Clone for AgentProfile {
    fn clone(&self) -> (r: Self)
        ensures
            r@ == self@,
    {
        AgentProfile {
            name: self.name.clone(),
            description: self.description.clone(),
            tools: clone_strings(&self.tools),
            model_preference: self.model_preference.clone(),
            system_prompt: self.system_prompt.clone(),
        }
    }
}

/// What the frontmatter lines read so far have set.
pub struct Fields {
    pub name: Option<Seq<char>>,
    pub description: Option<Seq<char>>,
    pub tools: Seq<Seq<char>>,
    pub model: Seq<char>,
}

/// The fields before any line is read: no name, no description, no tools, and
/// the model preference "default".
pub open spec fn no_fields() -> Fields {
    Fields { name: None, description: None, tools: Seq::empty(), model: "default"@ }
}

/// A fence is a line that, trimmed, is exactly three hyphens.
pub open spec fn is_fence(line: Seq<char>) -> bool {
    trimmed(line) == "---"@
}

/// The value of a `key: value` line: the trimmed text after the key, where the
/// trimmed line begins with the key (which ends in its colon).
pub open spec fn field_value(line: Seq<char>, key: Seq<char>) -> Option<Seq<char>> {
    let l = trimmed(line);
    if key.is_prefix_of(l) {
        Some(trimmed(l.skip(key.len() as int)))
    } else {
        None
    }
}

/// The text without one leading `[` and one trailing `]`, each only if present.
pub open spec fn unbracketed(s: Seq<char>) -> Seq<char> {
    let a = if s.len() > 0 && s[0] == '[' {
        s.skip(1)
    } else {
        s
    };
    if a.len() > 0 && a.last() == ']' {
        a.drop_last()
    } else {
        a
    }
}

/// One entry of a list: trimmed, then without surrounding double quotes, then
/// without surrounding single quotes.
pub open spec fn list_item(piece: Seq<char>) -> Seq<char> {
    stripped(stripped(trimmed(piece), '"'), '\'')
}

/// The entries of the given pieces that are not empty, in order.
pub open spec fn list_items(pieces: Seq<Seq<char>>) -> Seq<Seq<char>> {
    pieces.map_values(|p: Seq<char>| list_item(p)).filter(|i: Seq<char>| i.len() > 0)
}

/// The strings of an inline list such as `["a", "b"]`: the text between the
/// brackets is cut at the commas, and entries that come out empty are left out.
pub open spec fn string_list(s: Seq<char>) -> Seq<Seq<char>> {
    list_items(split(unbracketed(trimmed(s)), ','))
}

/// The fields after one more frontmatter line. A line that sets none of the four
/// known keys changes nothing; a key that comes again replaces the earlier value.
pub open spec fn with_line(f: Fields, line: Seq<char>) -> Fields {
    if let Some(v) = field_value(line, "name:"@) {
        Fields { name: Some(v), ..f }
    } else if let Some(v) = field_value(line, "description:"@) {
        Fields { description: Some(v), ..f }
    } else if let Some(v) = field_value(line, "model:"@) {
        Fields { model: v, ..f }
    } else if let Some(v) = field_value(line, "tools:"@) {
        Fields { tools: string_list(v), ..f }
    } else {
        f
    }
}

/// The fields that the given frontmatter lines set, read from first to last.
pub open spec fn fields_of(lines: Seq<Seq<char>>) -> Fields
    decreases lines.len(),
{
    if lines.len() == 0 {
        no_fields()
    } else {
        with_line(fields_of(lines.drop_last()), lines.last())
    }
}

/// The lines of `s` before its first fence, and the text after that fence's
/// line; `None` where `s` has no fence.
pub open spec fn header(s: Seq<char>) -> Option<(Seq<Seq<char>>, Seq<char>)>
    decreases s.len(),
{
    let e = index_of(s, '\n');
    if 0 <= e < s.len() {
        if is_fence(s.take(e)) {
            Some((Seq::empty(), s.skip(e + 1)))
        } else {
            match header(s.skip(e + 1)) {
                Some((lines, rest)) => Some((seq![s.take(e)] + lines, rest)),
                None => None,
            }
        }
    } else if is_fence(s) {
        Some((Seq::empty(), Seq::empty()))
    } else {
        None
    }
}

/// The frontmatter of a document: the lines between its two fences, and the
/// text after the closing fence. The trimmed document must open with a fence
/// line, and a later line must be a fence.
pub open spec fn frontmatter(doc: Seq<char>) -> Option<(Seq<Seq<char>>, Seq<char>)> {
    let t = trimmed(doc);
    let e = index_of(t, '\n');
    if 0 <= e < t.len() && is_fence(t.take(e)) {
        header(t.skip(e + 1))
    } else {
        None
    }
}

/// The profile that a document holds.
///
/// The lines of the frontmatter set the fields; a name must be among them. The
/// trimmed text after the closing fence is the system prompt.
pub open spec fn parsed(doc: Seq<char>) -> Option<ProfileModel> {
    match frontmatter(doc) {
        Some((lines, rest)) => {
            let f = fields_of(lines);
            match f.name {
                Some(name) => Some(
                    ProfileModel {
                        name,
                        description: match f.description {
                            Some(d) => d,
                            None => Seq::empty(),
                        },
                        tools: f.tools,
                        model_preference: f.model,
                        system_prompt: trimmed(rest),
                    },
                ),
                None => None,
            }
        },
        None => None,
    }
}

/// Whether `r` is what parsing the document gives.
pub open spec fn is_parse_of(r: Option<AgentProfile>, doc: Seq<char>) -> bool {
    match r {
        Some(p) => parsed(doc) == Some(p@),
        None => parsed(doc) is None,
    }
}

/// Parsing is a function of the document: two results for the same document
/// agree on whether there is a profile, and on each of its fields.
pub proof fn lemma_parse_repeats(doc: Seq<char>, a: Option<AgentProfile>, b: Option<AgentProfile>)
    requires
        is_parse_of(a, doc),
        is_parse_of(b, doc),
    ensures
        a is Some <==> b is Some,
        a is Some ==> a->0@ == b->0@,
{
}

/// A document whose trimmed text does not begin with three hyphens holds no
/// profile.
pub proof fn lemma_no_opening_fence(doc: Seq<char>)
    requires
        !"---"@.is_prefix_of(trimmed(doc)),
    ensures
        parsed(doc) is None,
{
    let t = trimmed(doc);
    let e = index_of(t, '\n');
    if 0 <= e < t.len() && is_fence(t.take(e)) {
        let line = t.take(e);
        reveal_strlit("---");
        lemma_trimmed_end_prefix(trimmed_start(doc));
        lemma_trimmed_start_head(doc);
        assert(t.len() > 0);
        assert(t[0] == trimmed_start(doc)[0]);
        if line.len() > 0 {
            assert(line[0] == t[0]);
        }
        lemma_trimmed_prefix(line);
        let f = trimmed(line);
        assert(f.len() == 3);
        assert(f =~= line.subrange(0, 3));
        assert("---"@ =~= t.subrange(0, 3));
    }
}

/// The lines that set no name leave the name unset.
pub proof fn lemma_name_needs_line(lines: Seq<Seq<char>>)
    requires
        forall|i: int| 0 <= i < lines.len() ==> field_value(#[trigger] lines[i], "name:"@) is None,
    ensures
        fields_of(lines).name is None,
    decreases lines.len(),
{
    if lines.len() > 0 {
        assert forall|i: int| 0 <= i < lines.drop_last().len() implies field_value(
            #[trigger] lines.drop_last()[i],
            "name:"@,
        ) is None by {
            assert(lines.drop_last()[i] == lines[i]);
        }
        lemma_name_needs_line(lines.drop_last());
        assert(field_value(lines.last(), "name:"@) is None) by {
            assert(lines[lines.len() - 1] == lines.last());
        }
    }
}

/// A document with frontmatter in which no line sets a name holds no profile.
pub proof fn lemma_no_name_field(doc: Seq<char>)
    requires
        frontmatter(doc) matches Some((lines, _)) && forall|i: int|
            0 <= i < lines.len() ==> field_value(#[trigger] lines[i], "name:"@) is None,
    ensures
        parsed(doc) is None,
{
    match frontmatter(doc) {
        Some((lines, rest)) => {
            lemma_name_needs_line(lines);
        },
        None => {},
    }
}

struct FieldValues {
    name: Option<Vec<char>>,
    description: Option<Vec<char>>,
    tools: Vec<Vec<char>>,
    model: Vec<char>,
}

impl View for FieldValues {
    type V = Fields;

    closed spec fn view(&self) -> Fields {
        Fields {
            name: match self.name {
                Some(v) => Some(v@),
                None => None,
            },
            description: match self.description {
                Some(v) => Some(v@),
                None => None,
            },
            tools: rows(self.tools@),
            model: self.model@,
        }
    }
}

fn is_fence_line(line: &Vec<char>) -> (r: bool)
    ensures
        r == is_fence(line@),
{
    let t = trim(line);
    let f = chars_of("---");
    same_chars(&t, &f)
}

fn value_of(line: &Vec<char>, key: &str) -> (r: Option<Vec<char>>)
    ensures
        match r {
            Some(v) => field_value(line@, key@) == Some(v@),
            None => field_value(line@, key@) is None,
        },
{
    let l = trim(line);
    let k = chars_of(key);
    if starts_with(&l, &k) {
        let rest = subvec(&l, k.len(), l.len());
        proof {
            assert(l@.skip(k.len() as int) =~= l@.subrange(k.len() as int, l.len() as int));
        }
        Some(trim(&rest))
    } else {
        None
    }
}

fn unbracket(s: &Vec<char>) -> (r: Vec<char>)
    ensures
        r@ == unbracketed(s@),
{
    let lo: usize = if s.len() > 0 && s[0] == '[' {
        1
    } else {
        0
    };
    let hi: usize = if s.len() > lo && s[s.len() - 1] == ']' {
        s.len() - 1
    } else {
        s.len()
    };
    proof {
        let a = if lo == 1 {
            s@.skip(1)
        } else {
            s@
        };
        assert(a =~= s@.subrange(lo as int, s.len() as int));
        if a.len() > 0 {
            assert(a.last() == s@[s.len() - 1]);
            assert(a.drop_last() =~= s@.subrange(lo as int, s.len() - 1));
        }
    }
    subvec(s, lo, hi)
}

/// Reads an inline list of strings, such as `["a", "b", "c"]`.
pub fn parse_string_list(s: &str) -> (r: Vec<String>)
    ensures
        texts(r@) == string_list(s@),
{
    let v = chars_of(s);
    let items = list_of(&v);
    strings_of(&items)
}

fn list_of(s: &Vec<char>) -> (r: Vec<Vec<char>>)
    ensures
        rows(r@) == string_list(s@),
{
    let t = trim(s);
    let inner = unbracket(&t);
    let pieces = split_at_char(&inner, ',');
    let mut r: Vec<Vec<char>> = Vec::new();
    let mut i: usize = 0;
    proof {
        assert(rows(pieces@).take(0) =~= Seq::<Seq<char>>::empty());
        reveal(Seq::filter);
        assert(rows(r@) =~= list_items(rows(pieces@).take(0)));
    }
    while i < pieces.len()
        invariant
            i <= pieces.len(),
            rows(r@) == list_items(rows(pieces@).take(i as int)),
        decreases pieces.len() - i,
    {
        let a = trim(&pieces[i]);
        let b = strip(&a, '"');
        let c = strip(&b, '\'');
        let ghost before = rows(r@);
        let ghost done = rows(pieces@).take(i as int);
        proof {
            let f = |p: Seq<char>| list_item(p);
            let keep = |i: Seq<char>| i.len() > 0;
            assert(rows(pieces@).take(i + 1) =~= done.push(pieces@[i as int]@));
            done.lemma_push_map_commute(f, pieces@[i as int]@);
            done.map_values(f).lemma_filter_push(c@, keep);
        }
        if c.len() > 0 {
            r.push(c);
            proof {
                assert(rows(r@) =~= before.push(c@));
            }
        }
        i += 1;
    }
    proof {
        assert(rows(pieces@).take(pieces.len() as int) =~= rows(pieces@));
    }
    r
}

fn apply_line(f: FieldValues, line: &Vec<char>) -> (r: FieldValues)
    ensures
        r@ == with_line(f@, line@),
{
    let mut f = f;
    if let Some(v) = value_of(line, "name:") {
        f.name = Some(v);
    } else if let Some(v) = value_of(line, "description:") {
        f.description = Some(v);
    } else if let Some(v) = value_of(line, "model:") {
        f.model = v;
    } else if let Some(v) = value_of(line, "tools:") {
        f.tools = list_of(&v);
    }
    f
}

/// Parses a markdown document with frontmatter into an agent profile.
///
/// ```text
/// ---
/// name: planner
/// description: Implementation planning specialist
/// tools: ["read_file", "list_dir", "grep_files"]
/// model: default
/// ---
///
/// You are an implementation planner...
/// ```
///
/// Values take one line each. Unknown keys are ignored. Without an opening
/// fence, a closing fence or a name there is no profile.
pub fn parse_agent_profile(content: &str) -> (r: Option<AgentProfile>)
    ensures
        is_parse_of(r, content@),
{
    let all = chars_of(content);
    let t = trim(&all);
    let first_end = find_char(&t, 0, '\n');
    proof {
        assert(t@.skip(0) =~= t@);
    }
    if first_end >= t.len() {
        return None;
    }
    let first = subvec(&t, 0, first_end);
    proof {
        assert(t@.take(first_end as int) =~= first@);
    }
    if !is_fence_line(&first) {
        return None;
    }
    let mut fields = FieldValues {
        name: None,
        description: None,
        tools: Vec::new(),
        model: chars_of("default"),
    };
    let mut from: usize = first_end + 1;
    let ghost top = t@.skip(first_end + 1);
    let ghost mut seen: Seq<Seq<char>> = Seq::empty();
    proof {
        assert(rows(fields.tools@) =~= Seq::<Seq<char>>::empty());
        assert(fields@ == no_fields());
        match header(t@.skip(from as int)) {
            Some((lines, rest)) => {
                assert(seen + lines =~= lines);
            },
            None => {},
        }
    }
    loop
        invariant
            from <= t.len(),
            t@ == trimmed(content@),
            first_end < t.len(),
            first_end == index_of(t@, '\n'),
            is_fence(t@.take(first_end as int)),
            top == t@.skip(first_end + 1),
            fields@ == fields_of(seen),
            header(top) == match header(t@.skip(from as int)) {
                Some((lines, rest)) => Some((seen + lines, rest)),
                None => None,
            },
        decreases t.len() - from,
    {
        let e = find_char(&t, from, '\n');
        let line = subvec(&t, from, e);
        let ghost s = t@.skip(from as int);
        proof {
            lemma_index_of_found(s, '\n');
            assert(s.take(e - from) =~= line@);
        }
        if is_fence_line(&line) {
            let start: usize = if e < t.len() {
                e + 1
            } else {
                e
            };
            let rest = subvec(&t, start, t.len());
            let body = trim(&rest);
            proof {
                if e < t.len() {
                    assert(s.skip(e - from + 1) =~= rest@);
                } else {
                    assert(s =~= line@);
                    assert(rest@ =~= Seq::<char>::empty());
                }
                assert(seen + Seq::<Seq<char>>::empty() =~= seen);
                assert(header(top) == Some((seen, rest@)));
            }
            return finish(fields, &body);
        }
        if e >= t.len() {
            proof {
                assert(s =~= line@);
                assert(header(s) is None);
            }
            return None;
        }
        fields = apply_line(fields, &line);
        proof {
            let next = t@.skip(e + 1);
            assert(s.skip(e - from + 1) =~= next);
            assert(seen.push(line@).drop_last() =~= seen);
            match header(next) {
                Some((lines, rest)) => {
                    assert(seen + (seq![line@] + lines) =~= seen.push(line@) + lines);
                },
                None => {},
            }
            seen = seen.push(line@);
        }
        from = e + 1;
    }
}

fn finish(fields: FieldValues, body: &Vec<char>) -> (r: Option<AgentProfile>)
    ensures
        match r {
            Some(p) => fields@.name is Some && p@ == (ProfileModel {
                name: fields@.name->0,
                description: match fields@.description {
                    Some(d) => d,
                    None => Seq::empty(),
                },
                tools: fields@.tools,
                model_preference: fields@.model,
                system_prompt: body@,
            }),
            None => fields@.name is None,
        },
{
    match fields.name {
        Some(name) => {
            let description = match fields.description {
                Some(d) => string_of(&d),
                None => String::new(),
            };
            Some(
                AgentProfile {
                    name: string_of(&name),
                    description,
                    tools: strings_of(&fields.tools),
                    model_preference: string_of(&fields.model),
                    system_prompt: string_of(body),
                },
            )
        },
        None => None,
    }
}

/// The earlier name of `parse_agent_profile`.
pub fn parse_agent_definition(content: &str) -> (r: Option<AgentProfile>)
    ensures
        is_parse_of(r, content@),
{
    parse_agent_profile(content)
}

} // verus!
