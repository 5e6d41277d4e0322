//! Catalog entry details computed from a file's text: the title, a title
//! made from the slug, the front-matter block, and the content fingerprint.
use vstd::prelude::*;
use sha2::Digest;
use vstd::string::*;
use crate::text::{joined, views_of, join_texts};
use crate::model::{AssetKind, ChatMode, Collection, CollectionItem, Instruction, Prompt, texts};

verus! {

/// The SHA-256 digest of `b`.
pub uninterp spec fn sha256_of(b: Seq<u8>) -> Seq<u8>;

/// Relies on sha2's `Sha256::digest`: the 32-byte SHA-256 digest of `b`.
#[verifier::external_body]
fn sha256_digest(b: &[u8]) -> (r: Vec<u8>)
    ensures
        r@ == sha256_of(b@),
        r@.len() == 32,
{
    sha2::Sha256::digest(b).to_vec()
}

/// Lower-case hex digit of a value below 16.
pub open spec fn hex_digit(d: u8) -> char {
    if d < 10 {
        ((d + 48) as char)
    } else {
        ((d + 87) as char)
    }
}

/// Two lower-case hex digits per byte, high nibble first.
pub open spec fn hex_of(b: Seq<u8>) -> Seq<char>
    decreases b.len(),
{
    if b.len() == 0 {
        Seq::empty()
    } else {
        hex_of(b.drop_last()) + seq![hex_digit(b.last() / 16), hex_digit(b.last() % 16)]
    }
}

/// Relies on `hex::encode`: two lower-case hex digits per byte, high
/// nibble first.
#[verifier::external_body]
fn hex_encode(b: &[u8]) -> (r: String)
    ensures
        r@ == hex_of(b@),
{
    hex::encode(b)
}

/// The content fingerprint: the SHA-256 digest of the UTF-8 text, in
/// lower-case hex.
pub fn compute_sha256(content: &str) -> (r: String)
    ensures
        r@ == hex_of(sha256_of(content.spec_bytes())),
{
    let digest = sha256_digest(content.as_bytes());
    hex_encode(digest.as_slice())
}

/// What `str::trim` makes of a character sequence.
pub uninterp spec fn trim_of(s: Seq<char>) -> Seq<char>;

/// Relies on `str::trim`: `s` without leading and trailing white space, a
/// function of its characters alone.
#[verifier::external_body]
fn trim_text(s: &str) -> (r: String)
    ensures
        r@ == trim_of(s@),
{
    s.trim().to_string()
}

/// What `char::to_uppercase` makes of a character.
pub uninterp spec fn upper_of(c: char) -> Seq<char>;

/// Relies on `char::to_uppercase`: the upper-case form of `c`, one or more
/// characters.
#[verifier::external_body]
fn upper_text(c: char) -> (r: String)
    ensures
        r@ == upper_of(c),
{
    c.to_uppercase().collect::<String>()
}

/// A line of `s` starts at `i`.
pub open spec fn line_start(s: Seq<char>, i: int) -> bool {
    0 <= i < s.len() && (i == 0 || s[i - 1] == '\n')
}

/// The line starting at `i` ends at `e`: at the next newline or the end.
pub open spec fn line_end(s: Seq<char>, i: int, e: int) -> bool {
    &&& i <= e <= s.len()
    &&& forall|k: int| i <= k < e ==> s[k] != '\n'
    &&& (e == s.len() || s[e] == '\n')
}

/// The line starting at `i` begins with `# `.
pub open spec fn title_line(s: Seq<char>, i: int) -> bool {
    line_start(s, i) && i + 2 <= s.len() && s[i] == '#' && s[i + 1] == ' '
}

/// The text of the line from `i` to `e`, without a final carriage return.
pub open spec fn line_text(s: Seq<char>, i: int, e: int) -> Seq<char> {
    if e > i && s[e - 1] == '\r' {
        s.subrange(i, e - 1)
    } else {
        s.subrange(i, e)
    }
}

/// The title of a markdown text: the trimmed rest of its first line that
/// begins with `# `.
pub fn extract_title(content: &str) -> (r: Option<String>)
    ensures
        r is None <==> forall|i: int| !#[trigger] title_line(content@, i),
        r matches Some(t) ==> exists|i: int, e: int|
            title_line(content@, i) && (forall|k: int| 0 <= k < i ==> !title_line(content@, k)) && #[trigger] line_end(
                content@,
                i,
                e,
            ) && t@ == trim_of(line_text(content@, i, e).skip(2)),
{
    let ghost s = content@;
    let n = content.unicode_len();
    let mut i: usize = 0;
    while i < n
        invariant
            s == content@,
            n == s.len(),
            i <= n,
            i == 0 || s[i - 1] == '\n',
            forall|k: int| 0 <= k < i ==> !#[trigger] title_line(s, k),
        decreases n - i,
    {
        let mut e = i;
        while e < n && content.get_char(e) != '\n'
            invariant
                s == content@,
                n == s.len(),
                i <= e <= n,
                forall|k: int| i <= k < e ==> s[k] != '\n',
            decreases n - e,
        {
            e = e + 1;
        }
        if e - i >= 2 && content.get_char(i) == '#' && content.get_char(i + 1) == ' ' {
            let end = if content.get_char(e - 1) == '\r' {
                e - 1
            } else {
                e
            };
            let rest = content.substring_char(i + 2, end);
            assert(rest@ =~= line_text(s, i as int, e as int).skip(2));
            let t = trim_text(rest);
            assert(title_line(s, i as int) && line_end(s, i as int, e as int));
            return Some(t);
        }
        proof {
            assert forall|k: int| 0 <= k < e + 1 && k <= n implies !#[trigger] title_line(s, k) by {
                if i < k <= e && title_line(s, k) {
                    assert(s[k - 1] != '\n');
                }
                if k == i && title_line(s, k) {
                    assert(s[i as int + 1] != '\n');
                }
            }
        }
        if e >= n {
            proof {
                assert forall|k: int| !#[trigger] title_line(s, k) by {
                    if 0 <= k && k <= n {
                    }
                }
            }
            return None;
        }
        i = e + 1;
    }
    None
}

/// `s` split at each `-`.
pub open spec fn split_dash(s: Seq<char>) -> Seq<Seq<char>>
    decreases s.len(),
{
    if s.len() == 0 {
        seq![Seq::<char>::empty()]
    } else {
        let rest = split_dash(s.drop_last());
        if s.last() == '-' {
            rest.push(Seq::<char>::empty())
        } else {
            rest.update(rest.len() - 1, rest.last().push(s.last()))
        }
    }
}

proof fn lemma_split_dash_nonempty(s: Seq<char>)
    ensures
        split_dash(s).len() >= 1,
    decreases s.len(),
{
    if s.len() > 0 {
        lemma_split_dash_nonempty(s.drop_last());
    }
}

/// A word with its first character upper-cased.
pub open spec fn capitalized(w: Seq<char>) -> Seq<char> {
    if w.len() == 0 {
        w
    } else {
        upper_of(w[0]) + w.skip(1)
    }
}

/// The words of a slug, each capitalized, joined by spaces.
pub open spec fn title_of_slug(s: Seq<char>) -> Seq<char> {
    joined(split_dash(s).map_values(|w: Seq<char>| capitalized(w)), " "@)
}

fn capitalize(w: &str) -> (r: String)
    ensures
        r@ == capitalized(w@),
{
    let n = w.unicode_len();
    if n == 0 {
        return String::new();
    }
    let mut r = upper_text(w.get_char(0));
    r.append(w.substring_char(1, n));
    assert(w@.subrange(1, n as int) =~= w@.skip(1));
    r
}

/// A display title made from a slug: `my-great-tool` becomes
/// `My Great Tool`.
pub fn slug_to_title(slug: &str) -> (r: String)
    ensures
        r@ == title_of_slug(slug@),
{
    let ghost s = slug@;
    let n = slug.unicode_len();
    let mut words: Vec<String> = Vec::new();
    let mut start: usize = 0;
    let mut i: usize = 0;
    proof {
        assert(s.take(0) =~= Seq::<char>::empty());
        assert(views_of(words@).push(s.subrange(0, 0)) =~= seq![Seq::<char>::empty()]);
    }
    while i < n
        invariant
            s == slug@,
            n == s.len(),
            start <= i <= n,
            views_of(words@).push(s.subrange(start as int, i as int)) == split_dash(s.take(i as int)),
        decreases n - i,
    {
        proof {
            assert(s.take(i as int + 1).drop_last() =~= s.take(i as int));
            lemma_split_dash_nonempty(s.take(i as int));
        }
        if slug.get_char(i) == '-' {
            let w = slug.substring_char(start, i);
            let ghost before = views_of(words@);
            words.push(w.to_owned());
            proof {
                assert(views_of(words@) =~= before.push(s.subrange(start as int, i as int)));
                assert(s.subrange(i as int + 1, i as int + 1) =~= Seq::<char>::empty());
            }
            start = i + 1;
        } else {
            proof {
                let pre = views_of(words@).push(s.subrange(start as int, i as int));
                assert(s.subrange(start as int, i as int + 1) =~= s.subrange(start as int, i as int).push(s[i as int]));
                assert(views_of(words@).push(s.subrange(start as int, i as int + 1)) =~= pre.update(
                    pre.len() - 1,
                    pre.last().push(s[i as int]),
                ));
            }
        }
        i = i + 1;
    }
    let last = slug.substring_char(start, n);
    words.push(last.to_owned());
    assert(s.take(n as int) =~= s);
    let mut caps: Vec<String> = Vec::new();
    let mut k: usize = 0;
    while k < words.len()
        invariant
            k <= words.len(),
            caps.len() == k,
            forall|q: int| 0 <= q < k ==> #[trigger] caps@[q]@ == capitalized(words@[q]@),
        decreases words.len() - k,
    {
        caps.push(capitalize(words[k].as_str()));
        k = k + 1;
    }
    assert(views_of(caps@) =~= split_dash(s).map_values(|w: Seq<char>| capitalized(w)));
    join_texts(&caps, " ")
}

/// `pat` occurs in `s` at position `i`.
pub open spec fn occurs_at(s: Seq<char>, pat: Seq<char>, i: int) -> bool {
    0 <= i && i + pat.len() <= s.len() && s.subrange(i, i + pat.len()) == pat
}

/// Position of the first occurrence of `pat` in `s` at or after `from`.
pub fn find_from(s: &str, pat: &str, from: usize) -> (r: Option<usize>)
    ensures
        match r {
            Some(i) => from <= i && occurs_at(s@, pat@, i as int) && forall|k: int|
                from <= k < i ==> !#[trigger] occurs_at(s@, pat@, k),
            None => forall|k: int| from <= k ==> !#[trigger] occurs_at(s@, pat@, k),
        },
{
    let n = s.unicode_len();
    let m = pat.unicode_len();
    if m > n {
        return None;
    }
    let mut i = from;
    while i <= n - m
        invariant
            n == s@.len(),
            m == pat@.len(),
            m <= n,
            from <= i,
            forall|k: int| from <= k < i ==> !#[trigger] occurs_at(s@, pat@, k),
        decreases n - i,
    {
        let mut j: usize = 0;
        while j < m && s.get_char(i + j) == pat.get_char(j)
            invariant
                n == s@.len(),
                m == pat@.len(),
                i + m <= n,
                j <= m,
                forall|q: int| 0 <= q < j ==> s@[i + q] == pat@[q],
            decreases m - j,
        {
            j = j + 1;
        }
        if j == m {
            assert(s@.subrange(i as int, i + m) =~= pat@);
            return Some(i);
        }
        proof {
            if occurs_at(s@, pat@, i as int) {
                assert(s@.subrange(i as int, i + m)[j as int] == pat@[j as int]);
            }
        }
        i = i + 1;
    }
    None
}

/// The front-matter block of a text that opens with `---` and a newline:
/// everything after that opening up to the next line holding only `---`,
/// or to the end of the text.
pub open spec fn front_matter_of(s: Seq<char>, block: Seq<char>) -> bool {
    &&& s.len() >= 4 && s.subrange(0, 4) == "---\n"@
    &&& exists|e: int|
        4 <= e <= s.len() && block == s.subrange(4, e) && (forall|k: int| 4 <= k < e ==> !#[trigger] occurs_at(s, "\n---\n"@, k))
            && (e == s.len() || occurs_at(s, "\n---\n"@, e))
}

/// The front-matter block of `content`, if it opens with one.
pub fn front_matter_block(content: &str) -> (r: Option<String>)
    ensures
        r is None <==> !(content@.len() >= 4 && content@.subrange(0, 4) == "---\n"@),
        r matches Some(b) ==> front_matter_of(content@, b@),
{
    let n = content.unicode_len();
    let opening = "---\n";
    proof {
        reveal_strlit("---\n");
    }
    if n < 4 || !crate::text::text_eq(content.substring_char(0, 4), opening) {
        return None;
    }
    let closing = "\n---\n";
    let end = match find_from(content, closing, 4) {
        Some(e) => e,
        None => n,
    };
    proof {
        if end < n {
            assert(end + closing@.len() <= n);
        }
    }
    let block = content.substring_char(4, end).to_owned();
    Some(block)
}

/// What `str::replace(s, pat, "")` makes of `s`.
pub uninterp spec fn removed_all(s: Seq<char>, pat: Seq<char>) -> Seq<char>;

/// Relies on `str::replace`: `s` with every occurrence of `pat` removed,
/// a function of the two texts alone.
#[verifier::external_body]
fn remove_all(s: &str, pat: &str) -> (r: String)
    ensures
        r@ == removed_all(s@, pat@),
{
    s.replace(pat, "")
}

/// The display name of a file: its title, else a title made from its slug.
pub open spec fn display_name(content: Seq<char>, slug: Seq<char>, name: Seq<char>) -> bool {
    if forall|i: int| !#[trigger] title_line(content, i) {
        name == title_of_slug(slug)
    } else {
        exists|i: int, e: int|
            title_line(content, i) && (forall|k: int| 0 <= k < i ==> !title_line(content, k)) && #[trigger] line_end(
                content,
                i,
                e,
            ) && name == trim_of(line_text(content, i, e).skip(2))
    }
}

fn name_from(content: &str, slug: &str) -> (r: String)
    ensures
        display_name(content@, slug@, r@),
{
    match extract_title(content) {
        Some(t) => t,
        None => slug_to_title(slug),
    }
}

/// A prompt from its file: path relative to the content root, file stem
/// (`x.prompt`), text, and front-matter fields.
pub fn prompt_from_file(path: String, stem: &str, content: &str, description: String, mode: String, tags: Vec<String>) -> (r: Prompt)
    ensures
        r.path@ == path@,
        r.slug@ == removed_all(stem@, ".prompt"@),
        display_name(content@, r.slug@, r.name@),
        r.description@ == description@,
        r.mode@ == mode@,
        texts(r.tags@) == texts(tags@),
        r.sha256@ == hex_of(sha256_of(content.spec_bytes())),
{
    let slug = remove_all(stem, ".prompt");
    let name = name_from(content, slug.as_str());
    let sha256 = compute_sha256(content);
    Prompt { path, slug, name, description, mode, tags, sha256 }
}

/// An instruction from its file; with no `applyTo` pattern it applies to
/// everything (`**`).
pub fn instruction_from_file(path: String, stem: &str, content: &str, description: String, apply_to: String, tags: Vec<String>) -> (r: Instruction)
    ensures
        r.path@ == path@,
        r.slug@ == removed_all(stem@, ".instructions"@),
        display_name(content@, r.slug@, r.name@),
        r.description@ == description@,
        texts(r.apply_to@) == if apply_to@.len() == 0 {
            seq!["**"@]
        } else {
            seq![apply_to@]
        },
        texts(r.tags@) == texts(tags@),
        r.sha256@ == hex_of(sha256_of(content.spec_bytes())),
{
    let slug = remove_all(stem, ".instructions");
    let name = name_from(content, slug.as_str());
    let sha256 = compute_sha256(content);
    let mut patterns: Vec<String> = Vec::new();
    if apply_to.as_str().unicode_len() == 0 {
        patterns.push(String::from_str("**"));
    } else {
        patterns.push(apply_to);
    }
    assert(texts(patterns@) =~= if apply_to@.len() == 0 {
        seq!["**"@]
    } else {
        seq![apply_to@]
    });
    Instruction { path, slug, name, description, apply_to: patterns, tags, sha256 }
}

/// A chat mode from its file.
pub fn chat_mode_from_file(path: String, stem: &str, content: &str, description: String, tools: Vec<String>, tags: Vec<String>) -> (r: ChatMode)
    ensures
        r.path@ == path@,
        r.slug@ == removed_all(stem@, ".chatmode"@),
        display_name(content@, r.slug@, r.name@),
        r.description@ == description@,
        texts(r.tools@) == texts(tools@),
        texts(r.tags@) == texts(tags@),
        r.sha256@ == hex_of(sha256_of(content.spec_bytes())),
{
    let slug = remove_all(stem, ".chatmode");
    let name = name_from(content, slug.as_str());
    let sha256 = compute_sha256(content);
    ChatMode { path, slug, name, description, tools, tags, sha256 }
}

/// The asset kind named in a collection file's item, if it is one.
pub open spec fn kind_named(k: Seq<char>) -> Option<AssetKind> {
    if k == "prompt"@ {
        Some(AssetKind::Prompt)
    } else if k == "instruction"@ {
        Some(AssetKind::Instruction)
    } else if k == "chatmode"@ || k == "chat_mode"@ {
        Some(AssetKind::ChatMode)
    } else if k == "collection"@ {
        Some(AssetKind::Collection)
    } else {
        None
    }
}

pub fn item_kind(k: &str) -> (r: Option<AssetKind>)
    ensures
        r == kind_named(k@),
{
    if crate::text::text_eq(k, "prompt") {
        Some(AssetKind::Prompt)
    } else if crate::text::text_eq(k, "instruction") {
        Some(AssetKind::Instruction)
    } else if crate::text::text_eq(k, "chatmode") || crate::text::text_eq(k, "chat_mode") {
        Some(AssetKind::ChatMode)
    } else if crate::text::text_eq(k, "collection") {
        Some(AssetKind::Collection)
    } else {
        None
    }
}

/// The items of a collection file that name a known kind, in order.
pub open spec fn known_items(raw: Seq<(Seq<char>, Seq<char>)>, items: Seq<CollectionItem>) -> bool
    decreases raw.len(),
{
    if raw.len() == 0 {
        items.len() == 0
    } else {
        match kind_named(raw.last().1) {
            Some(k) => items.len() > 0 && items.last().path@ == raw.last().0 && items.last().kind == k
                && known_items(raw.drop_last(), items.drop_last()),
            None => known_items(raw.drop_last(), items),
        }
    }
}

pub open spec fn pair_texts(v: Seq<(String, String)>) -> Seq<(Seq<char>, Seq<char>)> {
    v.map_values(|p: (String, String)| (p.0@, p.1@))
}

/// A collection from its file: path, file stem (`x.collection`), text, and
/// the parsed id, name, description, tags and (path, kind) items. A missing
/// id or name falls back to the slug; items of unknown kinds are dropped.
pub fn collection_from_file(
    path: String,
    stem: &str,
    content: &str,
    id: String,
    name: String,
    description: String,
    tags: Vec<String>,
    items: Vec<(String, String)>,
) -> (r: Collection)
    ensures
        r.path@ == path@,
        r.slug@ == removed_all(stem@, ".collection"@),
        r.id@ == if id@.len() == 0 {
            r.slug@
        } else {
            id@
        },
        r.name@ == if name@.len() == 0 {
            title_of_slug(r.slug@)
        } else {
            name@
        },
        r.description@ == description@,
        texts(r.tags@) == texts(tags@),
        known_items(pair_texts(items@), r.items@),
        r.sha256@ == hex_of(sha256_of(content.spec_bytes())),
{
    let slug = remove_all(stem, ".collection");
    let name = if name.as_str().unicode_len() == 0 {
        slug_to_title(slug.as_str())
    } else {
        name
    };
    let id = if id.as_str().unicode_len() == 0 {
        slug.clone()
    } else {
        id
    };
    let mut kept: Vec<CollectionItem> = Vec::new();
    let mut i: usize = 0;
    while i < items.len()
        invariant
            i <= items.len(),
            known_items(pair_texts(items@).take(i as int), kept@),
        decreases items.len() - i,
    {
        let ghost before = kept@;
        proof {
            assert(pair_texts(items@).take(i as int + 1).drop_last() =~= pair_texts(items@).take(i as int));
        }
        match item_kind(items[i].1.as_str()) {
            Some(kind) => {
                kept.push(CollectionItem { path: items[i].0.clone(), kind });
                assert(kept@.drop_last() =~= before);
            },
            None => {},
        }
        i = i + 1;
    }
    assert(pair_texts(items@).take(items.len() as int) =~= pair_texts(items@));
    let sha256 = compute_sha256(content);
    Collection { path, id, slug, name, description, tags, items: kept, sha256 }
}

} // verus!
