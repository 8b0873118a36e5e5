//! The profile router: picks the profile whose description best matches a
//! request.

use super::embedded::{embedded_documents, embedded_sources};
use super::parser::{parse_agent_profile, parsed, AgentProfile, ProfileModel};
use crate::text::{
    alphanumeric, chars_of, contains, ends_with, has_substring, is_alphanumeric, lowercase,
    pieces, rows, same_chars, same_text, split_marked, string_of, strings_of, texts,
    to_lowercase,
};
use vstd::prelude::*;
use vstd::utf8::encode_utf8;

verus! {

/// The least score with which a profile can be selected.
pub const MIN_MATCH_SCORE: usize = 2;

/// Words too common to tell one description from another.
pub open spec fn stop_words() -> Seq<Seq<char>> {
    seq![
        "a"@,
        "an"@,
        "the"@,
        "is"@,
        "are"@,
        "was"@,
        "were"@,
        "be"@,
        "been"@,
        "being"@,
        "have"@,
        "has"@,
        "had"@,
        "do"@,
        "does"@,
        "did"@,
        "will"@,
        "would"@,
        "could"@,
        "should"@,
        "may"@,
        "might"@,
        "shall"@,
        "can"@,
        "for"@,
        "and"@,
        "but"@,
        "or"@,
        "nor"@,
        "not"@,
        "so"@,
        "yet"@,
        "to"@,
        "of"@,
        "in"@,
        "on"@,
        "at"@,
        "by"@,
        "with"@,
        "from"@,
        "up"@,
        "about"@,
        "into"@,
        "through"@,
        "during"@,
        "before"@,
        "after"@,
        "above"@,
        "below"@,
        "between"@,
        "use"@,
        "that"@,
        "this"@,
        "it"@,
        "its"@,
    ]
}

/// A word counts as a keyword if it takes more than two bytes in UTF-8 and is no
/// stop word.
pub open spec fn is_keyword(w: Seq<char>) -> bool {
    encode_utf8(w).len() > 2 && !stop_words().contains(w)
}

/// Which characters of a text separate its words: those that are not
/// alphanumeric.
pub open spec fn word_breaks(s: Seq<char>) -> Seq<bool> {
    Seq::new(s.len(), |i: int| !alphanumeric(s[i]))
}

/// The keywords of an already lower-cased description, in order, repeats
/// included: its words that count as keywords.
pub open spec fn keywords_of_lowered(lowered: Seq<char>) -> Seq<Seq<char>> {
    pieces(lowered, word_breaks(lowered)).filter(|w: Seq<char>| is_keyword(w))
}

/// The keywords of a description.
pub open spec fn keywords(description: Seq<char>) -> Seq<Seq<char>> {
    keywords_of_lowered(lowercase(description))
}

/// The keys that occur in the input as a substring.
pub open spec fn matched(input: Seq<char>, keys: Set<Seq<char>>) -> Set<Seq<char>> {
    keys.filter(|k: Seq<char>| contains(input, k))
}

/// The number of distinct keys that occur in the input as a substring.
pub open spec fn match_count(input: Seq<char>, keys: Seq<Seq<char>>) -> nat {
    matched(input, keys.to_set()).len()
}

/// The score of a description against a lower-cased input: the number of its
/// distinct keywords that occur in the input.
pub open spec fn score(input_lower: Seq<char>, description: Seq<char>) -> nat {
    match_count(input_lower, keywords(description))
}

fn stop_word_list() -> (v: Vec<&'static str>)
    ensures
        v@.len() == stop_words().len(),
        forall|i: int| 0 <= i < v@.len() ==> v@[i]@ == #[trigger] stop_words()[i],
{
    vec![
        "a", "an", "the", "is", "are", "was", "were", "be", "been", "being", "have", "has",
        "had", "do", "does", "did", "will", "would", "could", "should", "may", "might",
        "shall", "can", "for", "and", "but", "or", "nor", "not", "so", "yet", "to", "of", "in",
        "on", "at", "by", "with", "from", "up", "about", "into", "through", "during", "before",
        "after", "above", "below", "between", "use", "that", "this", "it", "its",
    ]
}

/// Whether a word counts as a keyword.
pub fn keyword(word: &str) -> (r: bool)
    ensures
        r == is_keyword(word@),
{
    if word.as_bytes().len() <= 2 {
        return false;
    }
    let w = chars_of(word);
    let stops = stop_word_list();
    let mut i: usize = 0;
    while i < stops.len()
        invariant
            i <= stops.len(),
            w@ == word@,
            stops@.len() == stop_words().len(),
            forall|j: int| 0 <= j < stops@.len() ==> stops@[j]@ == #[trigger] stop_words()[j],
            forall|j: int| 0 <= j < i ==> stop_words()[j] != word@,
        decreases stops.len() - i,
    {
        let s = chars_of(stops[i]);
        if same_chars(&w, &s) {
            proof {
                assert(stop_words()[i as int] == word@);
            }
            return false;
        }
        i += 1;
    }
    true
}

/// The keywords of a text that is already in lower case.
pub fn keywords_of(lowered: &str) -> (r: Vec<String>)
    ensures
        texts(r@) == keywords_of_lowered(lowered@),
{
    let v = chars_of(lowered);
    let mut cut: Vec<bool> = Vec::new();
    let mut i: usize = 0;
    while i < v.len()
        invariant
            i <= v.len(),
            cut.len() == i,
            forall|j: int| 0 <= j < i ==> cut@[j] == !alphanumeric(v@[j]),
        decreases v.len() - i,
    {
        cut.push(!is_alphanumeric(v[i]));
        i += 1;
    }
    proof {
        assert(cut@ =~= word_breaks(v@));
    }
    let words = split_marked(&v, &cut);
    let mut kept: Vec<Vec<char>> = Vec::new();
    let mut k: usize = 0;
    proof {
        assert(rows(words@).take(0) =~= Seq::<Seq<char>>::empty());
        reveal(Seq::filter);
        assert(rows(kept@) =~= rows(words@).take(0).filter(|w: Seq<char>| is_keyword(w)));
    }
    while k < words.len()
        invariant
            k <= words.len(),
            rows(kept@) == rows(words@).take(k as int).filter(|w: Seq<char>| is_keyword(w)),
        decreases words.len() - k,
    {
        let word = string_of(&words[k]);
        let ghost before = rows(kept@);
        proof {
            let done = rows(words@).take(k as int);
            assert(rows(words@).take(k + 1) =~= done.push(words@[k as int]@));
            done.lemma_filter_push(words@[k as int]@, |w: Seq<char>| is_keyword(w));
        }
        if keyword(word.as_str()) {
            kept.push(chars_of(word.as_str()));
            proof {
                assert(rows(kept@) =~= before.push(word@));
            }
        }
        k += 1;
    }
    proof {
        assert(rows(words@).take(words.len() as int) =~= rows(words@));
    }
    strings_of(&kept)
}

/// The keywords of a description: its lower-cased words, without the short ones
/// and the stop words.
pub fn extract_keywords(description: &str) -> (r: Vec<String>)
    ensures
        texts(r@) == keywords(description@),
{
    let lowered = to_lowercase(description);
    keywords_of(lowered.as_str())
}

fn seen_before(keys: &Vec<String>, i: usize) -> (r: bool)
    requires
        i < keys.len(),
    ensures
        r == texts(keys@).take(i as int).contains(keys@[i as int]@),
{
    let mut j: usize = 0;
    while j < i
        invariant
            j <= i < keys.len(),
            forall|m: int| 0 <= m < j ==> texts(keys@).take(i as int)[m] != keys@[i as int]@,
        decreases i - j,
    {
        if keys[j] == keys[i] {
            proof {
                assert(texts(keys@).take(i as int)[j as int] == keys@[i as int]@);
            }
            return true;
        }
        j += 1;
    }
    false
}

/// Counts the distinct keys that occur in the input as a substring.
pub fn count_matches(input: &str, keys: &Vec<String>) -> (n: usize)
    ensures
        n == match_count(input@, texts(keys@)),
{
    let text = chars_of(input);
    let mut n: usize = 0;
    let mut i: usize = 0;
    proof {
        assert(texts(keys@).take(0).to_set() =~= Set::<Seq<char>>::empty());
        assert(matched(input@, Set::<Seq<char>>::empty()) =~= Set::<Seq<char>>::empty());
    }
    while i < keys.len()
        invariant
            i <= keys.len(),
            n <= i,
            text@ == input@,
            n == match_count(input@, texts(keys@).take(i as int)),
        decreases keys.len() - i,
    {
        let key = chars_of(keys[i].as_str());
        let hit = has_substring(&text, &key) && !seen_before(keys, i);
        proof {
            let done = texts(keys@).take(i as int);
            let k = keys@[i as int]@;
            assert(texts(keys@).take(i + 1) =~= done.push(k));
            done.lemma_push_to_set_commute(k);
            let before = matched(input@, done.to_set());
            let after = matched(input@, done.to_set().insert(k));
            done.to_set().lemma_len_filter(|k: Seq<char>| contains(input@, k));
            if contains(input@, k) {
                assert(after =~= before.insert(k));
                assert(before.contains(k) == done.contains(k));
            } else {
                assert(after =~= before);
            }
        }
        if hit {
            n += 1;
        }
        i += 1;
    }
    proof {
        assert(texts(keys@).take(keys.len() as int) =~= texts(keys@));
    }
    n
}

/// The score of a profile against a lower-cased input.
pub fn match_score(input_lower: &str, profile: &AgentProfile) -> (n: usize)
    ensures
        n == score(input_lower@, profile@.description),
{
    let keys = extract_keywords(profile.description.as_str());
    count_matches(input_lower, &keys)
}

/// Whether the profile at `i` wins: its score reaches the minimum, no score is
/// higher, and every earlier score is lower. At most one index wins.
pub open spec fn wins(scores: Seq<nat>, i: int) -> bool {
    &&& 0 <= i < scores.len()
    &&& scores[i] >= MIN_MATCH_SCORE
    &&& forall|j: int| 0 <= j < scores.len() ==> scores[j] <= scores[i]
    &&& forall|j: int| 0 <= j < i ==> scores[j] < scores[i]
}

/// The scores as natural numbers.
pub open spec fn naturals(scores: Seq<usize>) -> Seq<nat> {
    Seq::new(scores.len(), |i: int| scores[i] as nat)
}

/// The index that wins among the given scores, if one does: the first of the
/// highest scores, provided it reaches the minimum.
pub fn best_index(scores: &Vec<usize>) -> (r: Option<usize>)
    ensures
        match r {
            Some(i) => wins(naturals(scores@), i as int),
            None => forall|j: int| 0 <= j < scores.len() ==> scores@[j] < MIN_MATCH_SCORE,
        },
{
    let mut best: Option<usize> = None;
    let mut i: usize = 0;
    while i < scores.len()
        invariant
            i <= scores.len(),
            match best {
                Some(b) => b < i && wins(naturals(scores@).take(i as int), b as int),
                None => forall|j: int| 0 <= j < i ==> scores@[j] < MIN_MATCH_SCORE,
            },
        decreases scores.len() - i,
    {
        let better = match best {
            Some(b) => scores[i] > scores[b],
            None => true,
        };
        if scores[i] >= MIN_MATCH_SCORE && better {
            best = Some(i);
        }
        i += 1;
    }
    proof {
        assert(naturals(scores@).take(scores.len() as int) =~= naturals(scores@));
    }
    best
}

/// Routes a request to the most fitting agent profile.
pub struct AgentProfileRouter {
    profiles: Vec<AgentProfile>,
}

/// The scores of the profiles, in their order, against a lower-cased input.
pub open spec fn scores_of(profiles: Seq<AgentProfile>, input_lower: Seq<char>) -> Seq<nat> {
    Seq::new(profiles.len(), |i: int| score(input_lower, profiles[i]@.description))
}

/// Whether `i` is the first profile of that name.
pub open spec fn first_named(profiles: Seq<AgentProfile>, name: Seq<char>, i: int) -> bool {
    &&& 0 <= i < profiles.len()
    &&& profiles[i].name@ == name
    &&& forall|j: int| 0 <= j < i ==> profiles[j].name@ != name
}

impl AgentProfileRouter {
    /// The profiles of the router, in the order in which they were given.
    pub closed spec fn entries(&self) -> Seq<AgentProfile> {
        self.profiles@
    }

    /// A router over the given profiles, which keep their order.
    pub fn new(profiles: Vec<AgentProfile>) -> (r: Self)
        ensures
            r.entries() == profiles@,
    {
        AgentProfileRouter { profiles }
    }

    /// Selects the profile for an input that is already in lower case.
    ///
    /// Each profile scores the number of its distinct keywords that occur in the
    /// input. The highest score wins if it reaches `MIN_MATCH_SCORE`; among equal
    /// scores the earliest profile wins.
    pub fn select_lowered(&self, input_lower: &str) -> (r: Option<&AgentProfile>)
        ensures
            match r {
                Some(p) => exists|i: int|
                    wins(scores_of(self.entries(), input_lower@), i) && *p == self.entries()[i],
                None => forall|j: int|
                    0 <= j < self.entries().len() ==> scores_of(self.entries(), input_lower@)[j]
                        < MIN_MATCH_SCORE,
            },
    {
        let mut scores: Vec<usize> = Vec::new();
        let mut i: usize = 0;
        while i < self.profiles.len()
            invariant
                i <= self.profiles.len(),
                scores.len() == i,
                forall|j: int|
                    0 <= j < i ==> scores@[j] == score(input_lower@, self.profiles@[j]@.description),
            decreases self.profiles.len() - i,
        {
            scores.push(match_score(input_lower, &self.profiles[i]));
            i += 1;
        }
        proof {
            assert(naturals(scores@) =~= scores_of(self.entries(), input_lower@));
        }
        match best_index(&scores) {
            Some(b) => Some(&self.profiles[b]),
            None => None,
        }
    }

    /// Selects the profile that best matches the input, or none where no profile
    /// matches well enough. The input is compared in lower case.
    pub fn select(&self, input: &str) -> (r: Option<&AgentProfile>)
        ensures
            match r {
                Some(p) => exists|i: int|
                    wins(scores_of(self.entries(), lowercase(input@)), i) && *p
                        == self.entries()[i],
                None => forall|j: int|
                    0 <= j < self.entries().len() ==> scores_of(
                        self.entries(),
                        lowercase(input@),
                    )[j] < MIN_MATCH_SCORE,
            },
    {
        let lowered = to_lowercase(input);
        self.select_lowered(lowered.as_str())
    }

    /// All profiles, in order.
    pub fn profiles(&self) -> (r: &[AgentProfile])
        ensures
            r@ == self.entries(),
    {
        self.profiles.as_slice()
    }

    /// The first profile of the given name.
    pub fn get(&self, name: &str) -> (r: Option<&AgentProfile>)
        ensures
            match r {
                Some(p) => exists|i: int|
                    first_named(self.entries(), name@, i) && *p == self.entries()[i],
                None => forall|j: int|
                    0 <= j < self.entries().len() ==> self.entries()[j].name@ != name@,
            },
    {
        let mut i: usize = 0;
        while i < self.profiles.len()
            invariant
                i <= self.profiles.len(),
                forall|j: int| 0 <= j < i ==> self.profiles@[j].name@ != name@,
            decreases self.profiles.len() - i,
        {
            if same_text(self.profiles[i].name.as_str(), name) {
                proof {
                    assert(first_named(self.entries(), name@, i as int));
                }
                return Some(&self.profiles[i]);
            }
            i += 1;
        }
        None
    }
}

/// The largest profile file that is read, in bytes: one mebibyte.
pub const MAX_PROFILE_FILE_BYTES: u64 = 1048576;

/// The profiles as plain values, in order.
pub open spec fn models(profiles: Seq<AgentProfile>) -> Seq<ProfileModel> {
    Seq::new(profiles.len(), |i: int| profiles[i]@)
}

/// Whether one of the profiles has the given name.
pub open spec fn has_name(profiles: Seq<ProfileModel>, name: Seq<char>) -> bool {
    exists|i: int| 0 <= i < profiles.len() && #[trigger] profiles[i].name == name
}

/// The profiles of the documents that parse, in order.
pub open spec fn parsed_each(docs: Seq<Seq<char>>) -> Seq<ProfileModel>
    decreases docs.len(),
{
    if docs.len() == 0 {
        Seq::empty()
    } else {
        match parsed(docs.last()) {
            Some(p) => parsed_each(docs.drop_last()).push(p),
            None => parsed_each(docs.drop_last()),
        }
    }
}

/// The profiles after the documents were offered one by one, in order: a
/// document adds its profile if it parses and no profile has that name yet.
pub open spec fn merged(start: Seq<ProfileModel>, docs: Seq<Seq<char>>) -> Seq<ProfileModel>
    decreases docs.len(),
{
    if docs.len() == 0 {
        start
    } else {
        let before = merged(start, docs.drop_last());
        match parsed(docs.last()) {
            Some(p) => claimed(before, p),
            None => before,
        }
    }
}

/// A file name has the profile extension if it ends in `.md` after a stem that
/// is not empty.
pub open spec fn has_profile_extension(file_name: Seq<char>) -> bool {
    file_name.len() > 3 && ".md"@.is_suffix_of(file_name)
}

/// Whether a file name has the profile extension.
pub fn is_profile_file_name(file_name: &str) -> (r: bool)
    ensures
        r == has_profile_extension(file_name@),
{
    let name = chars_of(file_name);
    let ext = chars_of(".md");
    name.len() > 3 && ends_with(&name, &ext)
}

/// Whether a directory entry is read as a profile: it has the profile extension
/// and is no larger than `MAX_PROFILE_FILE_BYTES`.
pub fn accepts_profile_file(file_name: &str, size: u64) -> (r: bool)
    ensures
        r == (has_profile_extension(file_name@) && size <= MAX_PROFILE_FILE_BYTES),
{
    is_profile_file_name(file_name) && size <= MAX_PROFILE_FILE_BYTES
}

/// All default profiles, in their order.
pub fn load_embedded_profiles() -> (r: Vec<AgentProfile>)
    ensures
        models(r@) == parsed_each(embedded_documents()),
{
    let sources = embedded_sources();
    let mut r: Vec<AgentProfile> = Vec::new();
    let mut i: usize = 0;
    proof {
        assert(embedded_documents().take(0) =~= Seq::<Seq<char>>::empty());
        assert(models(r@) =~= Seq::<ProfileModel>::empty());
    }
    while i < sources.len()
        invariant
            i <= sources.len(),
            sources@.len() == embedded_documents().len(),
            forall|j: int|
                0 <= j < sources@.len() ==> sources@[j]@ == #[trigger] embedded_documents()[j],
            models(r@) == parsed_each(embedded_documents().take(i as int)),
        decreases sources.len() - i,
    {
        let ghost before = models(r@);
        proof {
            let done = embedded_documents().take(i + 1);
            assert(done.drop_last() =~= embedded_documents().take(i as int));
            assert(done.last() == embedded_documents()[i as int]);
        }
        match parse_agent_profile(sources[i]) {
            Some(p) => {
                r.push(p);
                proof {
                    assert(models(r@) =~= before.push(p@));
                }
            },
            None => {},
        }
        i += 1;
    }
    proof {
        assert(embedded_documents().take(sources.len() as int) =~= embedded_documents());
    }
    r
}

fn holds_name(profiles: &Vec<AgentProfile>, name: &str) -> (r: bool)
    ensures
        r == has_name(models(profiles@), name@),
{
    let mut i: usize = 0;
    while i < profiles.len()
        invariant
            i <= profiles.len(),
            forall|j: int| 0 <= j < i ==> models(profiles@)[j].name != name@,
        decreases profiles.len() - i,
    {
        if same_text(profiles[i].name.as_str(), name) {
            proof {
                assert(models(profiles@)[i as int].name == name@);
            }
            return true;
        }
        i += 1;
    }
    false
}

/// The profiles after one more profile was offered: it is added at the end
/// unless its name is claimed already.
pub open spec fn claimed(profiles: Seq<ProfileModel>, p: ProfileModel) -> Seq<ProfileModel> {
    if has_name(profiles, p.name) {
        profiles
    } else {
        profiles.push(p)
    }
}

/// Offers a profile to the collection. It is added at the end, and the result
/// is `true`, unless a profile of the collection has its name already.
pub fn claim(profiles: &mut Vec<AgentProfile>, profile: AgentProfile) -> (added: bool)
    ensures
        models(final(profiles)@) == claimed(models(old(profiles)@), profile@),
        added == !has_name(models(old(profiles)@), profile@.name),
{
    let ghost before = models(profiles@);
    if holds_name(profiles, profile.name.as_str()) {
        false
    } else {
        profiles.push(profile);
        proof {
            assert(models(profiles@) =~= before.push(profile@));
        }
        true
    }
}

fn offer(profiles: &mut Vec<AgentProfile>, doc: &str)
    ensures
        models(final(profiles)@) == merged(models(old(profiles)@), seq![doc@]),
{
    let ghost before = models(profiles@);
    proof {
        assert(seq![doc@].drop_last() =~= Seq::<Seq<char>>::empty());
        assert(seq![doc@].last() == doc@);
        assert(merged(before, Seq::empty()) == before);
    }
    match parse_agent_profile(doc) {
        Some(p) => {
            claim(profiles, p);
        },
        None => {},
    }
}

/// Offers the default profiles to the collection, in their order.
pub fn claim_embedded(profiles: &mut Vec<AgentProfile>)
    ensures
        models(final(profiles)@) == merged(models(old(profiles)@), embedded_documents()),
{
    let sources = embedded_sources();
    let mut i: usize = 0;
    proof {
        assert(embedded_documents().take(0) =~= Seq::<Seq<char>>::empty());
    }
    while i < sources.len()
        invariant
            i <= sources.len(),
            sources@.len() == embedded_documents().len(),
            forall|j: int|
                0 <= j < sources@.len() ==> sources@[j]@ == #[trigger] embedded_documents()[j],
            models(profiles@) == merged(
                models(old(profiles)@),
                embedded_documents().take(i as int),
            ),
        decreases sources.len() - i,
    {
        proof {
            let done = embedded_documents().take(i as int);
            lemma_merged_append(models(old(profiles)@), done, seq![sources@[i as int]@]);
            assert(done + seq![sources@[i as int]@] =~= embedded_documents().take(i + 1));
        }
        offer(profiles, sources[i]);
        i += 1;
    }
    proof {
        assert(embedded_documents().take(sources.len() as int) =~= embedded_documents());
    }
}

/// Offering the documents `a` and then `b` is offering `a + b`.
pub proof fn lemma_merged_append(start: Seq<ProfileModel>, a: Seq<Seq<char>>, b: Seq<Seq<char>>)
    ensures
        merged(merged(start, a), b) == merged(start, a + b),
    decreases b.len(),
{
    if b.len() == 0 {
        assert(a + b =~= a);
    } else {
        lemma_merged_append(start, a, b.drop_last());
        assert((a + b).drop_last() =~= a + b.drop_last());
        assert((a + b).last() == b.last());
    }
}

/// Whether no two of the profiles have the same name.
pub open spec fn names_differ(profiles: Seq<ProfileModel>) -> bool {
    forall|i: int, j: int|
        0 <= i < j < profiles.len() ==> (#[trigger] profiles[i]).name != (#[trigger] profiles[j]).name
}

/// Offering documents never changes or removes a profile that is there: the
/// profiles of a higher tier stay as they are, at the front.
pub proof fn lemma_merged_keeps(start: Seq<ProfileModel>, docs: Seq<Seq<char>>)
    ensures
        start.is_prefix_of(merged(start, docs)),
    decreases docs.len(),
{
    if docs.len() == 0 {
        assert(start =~= start.subrange(0, start.len() as int));
    } else {
        lemma_merged_keeps(start, docs.drop_last());
        let before = merged(start, docs.drop_last());
        let after = merged(start, docs);
        assert(start =~= after.subrange(0, start.len() as int)) by {
            assert(start =~= before.subrange(0, start.len() as int));
        }
    }
}

/// No name is claimed twice: where the names differ before documents are
/// offered, they differ afterwards.
pub proof fn lemma_merged_names_differ(start: Seq<ProfileModel>, docs: Seq<Seq<char>>)
    requires
        names_differ(start),
    ensures
        names_differ(merged(start, docs)),
    decreases docs.len(),
{
    if docs.len() > 0 {
        lemma_merged_names_differ(start, docs.drop_last());
        let before = merged(start, docs.drop_last());
        match parsed(docs.last()) {
            Some(p) => {
                if !has_name(before, p.name) {
                    let after = before.push(p);
                    assert forall|i: int, j: int| 0 <= i < j < after.len() implies (
                    #[trigger] after[i]).name != (#[trigger] after[j]).name by {
                        if j == before.len() {
                            assert(before[i].name != p.name);
                        } else {
                            assert(after[i] == before[i]);
                            assert(after[j] == before[j]);
                        }
                    }
                }
            },
            None => {},
        }
    }
}

/// Gathers the profiles of three tiers, highest priority first: the documents
/// of the project, those of the user, and the defaults. Within a tier the
/// documents count in the order given. A document that does not parse is left
/// out, and so is one whose name an earlier document has claimed.
pub fn load_profiles(project: &Vec<String>, user: &Vec<String>) -> (r: Vec<AgentProfile>)
    ensures
        models(r@) == merged(
            Seq::empty(),
            texts(project@) + texts(user@) + embedded_documents(),
        ),
        names_differ(models(r@)),
{
    let mut r: Vec<AgentProfile> = Vec::new();
    proof {
        assert(models(r@) =~= Seq::<ProfileModel>::empty());
    }
    offer_all(&mut r, project);
    offer_all(&mut r, user);
    claim_embedded(&mut r);
    proof {
        lemma_merged_append(Seq::empty(), texts(project@), texts(user@));
        lemma_merged_append(
            Seq::empty(),
            texts(project@) + texts(user@),
            embedded_documents(),
        );
        lemma_merged_names_differ(
            Seq::empty(),
            texts(project@) + texts(user@) + embedded_documents(),
        );
    }
    r
}

fn offer_all(profiles: &mut Vec<AgentProfile>, docs: &Vec<String>)
    ensures
        models(final(profiles)@) == merged(models(old(profiles)@), texts(docs@)),
{
    let mut i: usize = 0;
    proof {
        assert(texts(docs@).take(0) =~= Seq::<Seq<char>>::empty());
    }
    while i < docs.len()
        invariant
            i <= docs.len(),
            models(profiles@) == merged(models(old(profiles)@), texts(docs@).take(i as int)),
        decreases docs.len() - i,
    {
        proof {
            let done = texts(docs@).take(i as int);
            lemma_merged_append(models(old(profiles)@), done, seq![docs@[i as int]@]);
            assert(done + seq![docs@[i as int]@] =~= texts(docs@).take(i + 1));
        }
        offer(profiles, docs[i].as_str());
        i += 1;
    }
    proof {
        assert(texts(docs@).take(docs.len() as int) =~= texts(docs@));
    }
}

/// At most one profile wins.
pub proof fn lemma_winner_unique(scores: Seq<nat>, i: int, j: int)
    requires
        wins(scores, i),
        wins(scores, j),
    ensures
        i == j,
{
}

/// A profile that scores exactly the minimum is selected if no other profile
/// scores higher and no earlier profile scores as much.
pub proof fn lemma_selected_at_threshold(
    profiles: Seq<AgentProfile>,
    input_lower: Seq<char>,
    i: int,
)
    requires
        0 <= i < profiles.len(),
        score(input_lower, profiles[i]@.description) == MIN_MATCH_SCORE,
        forall|j: int|
            0 <= j < profiles.len() ==> score(input_lower, #[trigger] profiles[j]@.description)
                <= MIN_MATCH_SCORE,
        forall|j: int|
            0 <= j < i ==> score(input_lower, #[trigger] profiles[j]@.description)
                < MIN_MATCH_SCORE,
    ensures
        wins(scores_of(profiles, input_lower), i),
        forall|k: int| wins(scores_of(profiles, input_lower), k) ==> k == i,
{
    let scores = scores_of(profiles, input_lower);
    assert forall|j: int| 0 <= j < scores.len() implies scores[j] <= scores[i] by {
        assert(scores[j] == score(input_lower, profiles[j]@.description));
    }
    assert forall|j: int| 0 <= j < i implies scores[j] < scores[i] by {
        assert(scores[j] == score(input_lower, profiles[j]@.description));
    }
}

/// Of two profiles with the same description the later one is never selected:
/// they score the same, and the earlier of equal scores wins.
pub proof fn lemma_first_of_equals(
    profiles: Seq<AgentProfile>,
    input_lower: Seq<char>,
    i: int,
    j: int,
)
    requires
        0 <= i < j < profiles.len(),
        profiles[i]@.description == profiles[j]@.description,
    ensures
        scores_of(profiles, input_lower)[i] == scores_of(profiles, input_lower)[j],
        !wins(scores_of(profiles, input_lower), j),
{
    let scores = scores_of(profiles, input_lower);
    if wins(scores, j) {
        assert(scores[i] < scores[j]);
    }
}

} // verus!
