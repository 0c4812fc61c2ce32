//! Language detection from file extensions, and the accent palette
//! override emitted for the active language.

use vstd::prelude::*;
use crate::text::ascii_lower;
use crate::text::lex_lt;
use crate::text::lower_seq;
use crate::text::str_eq;
use crate::text::str_lex_lt;
use vstd::string::StringExecFns;

verus! {

/// The language an extension denotes, over its lowercased form.
pub open spec fn spec_ext_to_lang(ext: Seq<char>) -> Option<Seq<char>> {
    let l = lower_seq(ext);
    if l == "js"@ || l == "cjs"@ || l == "mjs"@ || l == "jsx"@ {
        Some("javascript"@)
    } else if l == "ts"@ || l == "tsx"@ {
        Some("typescript"@)
    } else if l == "vue"@ {
        Some("vue"@)
    } else if l == "svelte"@ {
        Some("svelte"@)
    } else if l == "astro"@ {
        Some("astro"@)
    } else if l == "scss"@ || l == "sass"@ {
        Some("scss"@)
    } else if l == "css"@ {
        Some("css"@)
    } else if l == "html"@ || l == "htm"@ {
        Some("html"@)
    } else if l == "rs"@ {
        Some("rust"@)
    } else if l == "c"@ || l == "h"@ {
        Some("c"@)
    } else if l == "cc"@ || l == "cpp"@ || l == "cxx"@ || l == "hpp"@ {
        Some("cpp"@)
    } else if l == "zig"@ {
        Some("zig"@)
    } else if l == "go"@ {
        Some("go"@)
    } else if l == "nim"@ {
        Some("nim"@)
    } else if l == "nix"@ {
        Some("nix"@)
    } else if l == "java"@ {
        Some("java"@)
    } else if l == "kt"@ || l == "kts"@ {
        Some("kotlin"@)
    } else if l == "swift"@ {
        Some("swift"@)
    } else if l == "dart"@ {
        Some("dart"@)
    } else if l == "py"@ {
        Some("python"@)
    } else if l == "lua"@ {
        Some("lua"@)
    } else if l == "rb"@ {
        Some("ruby"@)
    } else if l == "php"@ {
        Some("php"@)
    } else if l == "sh"@ || l == "bash"@ || l == "zsh"@ || l == "fish"@ {
        Some("shell"@)
    } else if l == "yml"@ || l == "yaml"@ {
        Some("yaml"@)
    } else if l == "toml"@ {
        Some("toml"@)
    } else if l == "json"@ || l == "jsonc"@ {
        Some("json"@)
    } else if l == "xml"@ {
        Some("xml"@)
    } else if l == "md"@ || l == "markdown"@ || l == "mdx"@ {
        Some("markdown"@)
    } else if l == "sql"@ {
        Some("sql"@)
    } else if l == "ex"@ || l == "exs"@ {
        Some("elixir"@)
    } else if l == "erl"@ {
        Some("erlang"@)
    } else if l == "hs"@ {
        Some("haskell"@)
    } else if l == "ml"@ || l == "mli"@ {
        Some("ocaml"@)
    } else if l == "qml"@ {
        Some("qml"@)
    } else {
        None
    }
}

/// Maps a file extension, case-insensitively, to the language it
/// belongs to.
pub fn ext_to_lang(ext: &str) -> (r: Option<&'static str>)
    ensures
        match r {
            Some(s) => spec_ext_to_lang(ext@) == Some(s@),
            None => spec_ext_to_lang(ext@) == None::<Seq<char>>,
        },
{
    let low = ascii_lower(ext);
    let l = low.as_str();
    if str_eq(l, "js") || str_eq(l, "cjs") || str_eq(l, "mjs") || str_eq(l, "jsx") {
        Some("javascript")
    } else if str_eq(l, "ts") || str_eq(l, "tsx") {
        Some("typescript")
    } else if str_eq(l, "vue") {
        Some("vue")
    } else if str_eq(l, "svelte") {
        Some("svelte")
    } else if str_eq(l, "astro") {
        Some("astro")
    } else if str_eq(l, "scss") || str_eq(l, "sass") {
        Some("scss")
    } else if str_eq(l, "css") {
        Some("css")
    } else if str_eq(l, "html") || str_eq(l, "htm") {
        Some("html")
    } else if str_eq(l, "rs") {
        Some("rust")
    } else if str_eq(l, "c") || str_eq(l, "h") {
        Some("c")
    } else if str_eq(l, "cc") || str_eq(l, "cpp") || str_eq(l, "cxx") || str_eq(l, "hpp") {
        Some("cpp")
    } else if str_eq(l, "zig") {
        Some("zig")
    } else if str_eq(l, "go") {
        Some("go")
    } else if str_eq(l, "nim") {
        Some("nim")
    } else if str_eq(l, "nix") {
        Some("nix")
    } else if str_eq(l, "java") {
        Some("java")
    } else if str_eq(l, "kt") || str_eq(l, "kts") {
        Some("kotlin")
    } else if str_eq(l, "swift") {
        Some("swift")
    } else if str_eq(l, "dart") {
        Some("dart")
    } else if str_eq(l, "py") {
        Some("python")
    } else if str_eq(l, "lua") {
        Some("lua")
    } else if str_eq(l, "rb") {
        Some("ruby")
    } else if str_eq(l, "php") {
        Some("php")
    } else if str_eq(l, "sh") || str_eq(l, "bash") || str_eq(l, "zsh") || str_eq(l, "fish") {
        Some("shell")
    } else if str_eq(l, "yml") || str_eq(l, "yaml") {
        Some("yaml")
    } else if str_eq(l, "toml") {
        Some("toml")
    } else if str_eq(l, "json") || str_eq(l, "jsonc") {
        Some("json")
    } else if str_eq(l, "xml") {
        Some("xml")
    } else if str_eq(l, "md") || str_eq(l, "markdown") || str_eq(l, "mdx") {
        Some("markdown")
    } else if str_eq(l, "sql") {
        Some("sql")
    } else if str_eq(l, "ex") || str_eq(l, "exs") {
        Some("elixir")
    } else if str_eq(l, "erl") {
        Some("erlang")
    } else if str_eq(l, "hs") {
        Some("haskell")
    } else if str_eq(l, "ml") || str_eq(l, "mli") {
        Some("ocaml")
    } else if str_eq(l, "qml") {
        Some("qml")
    } else {
        None
    }
}

/// The accent triple of a language: primary, secondary, tertiary.
pub open spec fn spec_accent(lang: Seq<char>) -> Option<(Seq<char>, Seq<char>, Seq<char>)> {
    if lang == "svelte"@ {
        Some(("ff3e00"@, "312e81"@, "1f2937"@))
    } else if lang == "rust"@ {
        Some(("d28445"@, "b294bb"@, "81a2be"@))
    } else if lang == "qml"@ {
        Some(("41cd52"@, "3ea8ff"@, "ff7a93"@))
    } else if lang == "typescript"@ {
        Some(("3178c6"@, "42a5f5"@, "90caf9"@))
    } else if lang == "javascript"@ {
        Some(("f7df1e"@, "f59e0b"@, "22c55e"@))
    } else if lang == "python"@ {
        Some(("3776ab"@, "ffd43b"@, "646464"@))
    } else if lang == "lua"@ {
        Some(("2c2d72"@, "51a0d5"@, "ebb55b"@))
    } else if lang == "astro"@ {
        Some(("ff5d01"@, "00b0ff"@, "7c4dff"@))
    } else if lang == "html"@ {
        Some(("e34f26"@, "264de4"@, "f16529"@))
    } else if lang == "scss"@ {
        Some(("c6538c"@, "563d7c"@, "ff79c6"@))
    } else if lang == "css"@ {
        Some(("2965f1"@, "563d7c"@, "7cb342"@))
    } else if lang == "vue"@ {
        Some(("41b883"@, "35495e"@, "00b3ff"@))
    } else if lang == "go"@ {
        Some(("00add8"@, "fdb827"@, "375eab"@))
    } else if lang == "c"@ {
        Some(("00599c"@, "a8b9cc"@, "f34b7d"@))
    } else if lang == "cpp"@ {
        Some(("00599c"@, "f34b7d"@, "a8b9cc"@))
    } else if lang == "zig"@ {
        Some(("f7a41d"@, "b8bb26"@, "83a598"@))
    } else if lang == "java"@ {
        Some(("5382a1"@, "f8981d"@, "007396"@))
    } else if lang == "kotlin"@ {
        Some(("7f52ff"@, "fdb827"@, "01d1ff"@))
    } else if lang == "swift"@ {
        Some(("f05138"@, "ff9f0a"@, "34c759"@))
    } else if lang == "dart"@ {
        Some(("0175c2"@, "13b9fd"@, "0ea5e9"@))
    } else if lang == "shell"@ {
        Some(("3c873a"@, "ffd43b"@, "6aa84f"@))
    } else if lang == "yaml"@ {
        Some(("cbcb41"@, "00acc1"@, "8bc34a"@))
    } else if lang == "toml"@ {
        Some(("9c27b0"@, "ff7043"@, "26a69a"@))
    } else if lang == "markdown"@ {
        Some(("4caf50"@, "ffb300"@, "42a5f5"@))
    } else if lang == "json"@ {
        Some(("fbc02d"@, "03a9f4"@, "8bc34a"@))
    } else if lang == "sql"@ {
        Some(("e67e22"@, "2980b9"@, "27ae60"@))
    } else if lang == "elixir"@ {
        Some(("4b275f"@, "7e57c2"@, "ce93d8"@))
    } else if lang == "erlang"@ {
        Some(("a90533"@, "ef5350"@, "ab47bc"@))
    } else if lang == "haskell"@ {
        Some(("5e5086"@, "8e44ad"@, "3498db"@))
    } else if lang == "ocaml"@ {
        Some(("ef7a08"@, "3775a9"@, "a7a8ad"@))
    } else {
        None
    }
}

/// The accent triple for a language, if it has one.
pub fn accent_for_language(lang: &str) -> (r: Option<(&'static str, &'static str, &'static str)>)
    ensures
        match r {
            Some(t) => spec_accent(lang@) == Some((t.0@, t.1@, t.2@)),
            None => spec_accent(lang@) == None::<(Seq<char>, Seq<char>, Seq<char>)>,
        },
{
    if str_eq(lang, "svelte") {
        Some(("ff3e00", "312e81", "1f2937"))
    } else if str_eq(lang, "rust") {
        Some(("d28445", "b294bb", "81a2be"))
    } else if str_eq(lang, "qml") {
        Some(("41cd52", "3ea8ff", "ff7a93"))
    } else if str_eq(lang, "typescript") {
        Some(("3178c6", "42a5f5", "90caf9"))
    } else if str_eq(lang, "javascript") {
        Some(("f7df1e", "f59e0b", "22c55e"))
    } else if str_eq(lang, "python") {
        Some(("3776ab", "ffd43b", "646464"))
    } else if str_eq(lang, "lua") {
        Some(("2c2d72", "51a0d5", "ebb55b"))
    } else if str_eq(lang, "astro") {
        Some(("ff5d01", "00b0ff", "7c4dff"))
    } else if str_eq(lang, "html") {
        Some(("e34f26", "264de4", "f16529"))
    } else if str_eq(lang, "scss") {
        Some(("c6538c", "563d7c", "ff79c6"))
    } else if str_eq(lang, "css") {
        Some(("2965f1", "563d7c", "7cb342"))
    } else if str_eq(lang, "vue") {
        Some(("41b883", "35495e", "00b3ff"))
    } else if str_eq(lang, "go") {
        Some(("00add8", "fdb827", "375eab"))
    } else if str_eq(lang, "c") {
        Some(("00599c", "a8b9cc", "f34b7d"))
    } else if str_eq(lang, "cpp") {
        Some(("00599c", "f34b7d", "a8b9cc"))
    } else if str_eq(lang, "zig") {
        Some(("f7a41d", "b8bb26", "83a598"))
    } else if str_eq(lang, "java") {
        Some(("5382a1", "f8981d", "007396"))
    } else if str_eq(lang, "kotlin") {
        Some(("7f52ff", "fdb827", "01d1ff"))
    } else if str_eq(lang, "swift") {
        Some(("f05138", "ff9f0a", "34c759"))
    } else if str_eq(lang, "dart") {
        Some(("0175c2", "13b9fd", "0ea5e9"))
    } else if str_eq(lang, "shell") {
        Some(("3c873a", "ffd43b", "6aa84f"))
    } else if str_eq(lang, "yaml") {
        Some(("cbcb41", "00acc1", "8bc34a"))
    } else if str_eq(lang, "toml") {
        Some(("9c27b0", "ff7043", "26a69a"))
    } else if str_eq(lang, "markdown") {
        Some(("4caf50", "ffb300", "42a5f5"))
    } else if str_eq(lang, "json") {
        Some(("fbc02d", "03a9f4", "8bc34a"))
    } else if str_eq(lang, "sql") {
        Some(("e67e22", "2980b9", "27ae60"))
    } else if str_eq(lang, "elixir") {
        Some(("4b275f", "7e57c2", "ce93d8"))
    } else if str_eq(lang, "erlang") {
        Some(("a90533", "ef5350", "ab47bc"))
    } else if str_eq(lang, "haskell") {
        Some(("5e5086", "8e44ad", "3498db"))
    } else if str_eq(lang, "ocaml") {
        Some(("ef7a08", "3775a9", "a7a8ad"))
    } else {
        None
    }
}

/// The palette-override text for a language with a known accent
/// triple: its colors under the fixed key order, the primary doubling
/// as the surface tint.
pub open spec fn spec_palette_json(
    lang: Seq<char>,
    p: Seq<char>,
    s: Seq<char>,
    t: Seq<char>,
) -> Seq<char> {
    "{\"activeLanguage\":\""@ + lang + "\",\"colors\":{\"primary\":\""@ + p
        + "\",\"secondary\":\""@ + s + "\",\"surfaceTint\":\""@ + p + "\",\"tertiary\":\""@ + t
        + "\"}}"@
}

/// Writes the palette-override text, or nothing for a language
/// without a known accent triple.
pub fn palette_override_json(lang: &str) -> (r: Option<String>)
    ensures
        match r {
            Some(out) => spec_accent(lang@) matches Some(acc) && out@ == spec_palette_json(
                lang@,
                acc.0,
                acc.1,
                acc.2,
            ),
            None => spec_accent(lang@) == None::<(Seq<char>, Seq<char>, Seq<char>)>,
        },
{
    match accent_for_language(lang) {
        None => None,
        Some((p, s, t)) => {
            let mut out = String::from_str("{\"activeLanguage\":\"");
            out.append(lang);
            out.append("\",\"colors\":{\"primary\":\"");
            out.append(p);
            out.append("\",\"secondary\":\"");
            out.append(s);
            out.append("\",\"surfaceTint\":\"");
            out.append(p);
            out.append("\",\"tertiary\":\"");
            out.append(t);
            out.append("\"}}");
            Some(out)
        },
    }
}

/// The language counts after one language is seen once more: the
/// first matching entry is bumped, a new language is appended.
pub open spec fn spec_bump(cs: Seq<(Seq<char>, int)>, k: Seq<char>) -> Seq<(Seq<char>, int)>
    decreases cs.len(),
{
    if cs.len() == 0 {
        seq![(k, 1int)]
    } else if cs[0].0 == k {
        seq![(cs[0].0, cs[0].1 + 1int)] + cs.skip(1)
    } else {
        seq![cs[0]] + spec_bump(cs.skip(1), k)
    }
}

proof fn lemma_spec_bump(cs: Seq<(Seq<char>, int)>, k: Seq<char>, idx: int)
    requires
        0 <= idx < cs.len(),
        cs[idx].0 == k,
        forall|j: int| 0 <= j < idx ==> cs[j].0 != k,
    ensures
        spec_bump(cs, k) == cs.update(idx, (k, cs[idx].1 + 1)),
    decreases idx,
{
    if idx == 0 {
        assert(spec_bump(cs, k) =~= cs.update(0, (k, cs[0].1 + 1)));
    } else {
        assert(cs.skip(1)[idx - 1].0 == k);
        assert(forall|j: int| 0 <= j < idx - 1 ==> #[trigger] cs.skip(1)[j].0 != k) by {
            assert forall|j: int| 0 <= j < idx - 1 implies #[trigger] cs.skip(1)[j].0 != k by {
                assert(cs.skip(1)[j] == cs[j + 1]);
            }
        }
        lemma_spec_bump(cs.skip(1), k, idx - 1);
        assert(seq![cs[0]] + cs.skip(1).update(idx - 1, (k, cs[idx].1 + 1)) =~= cs.update(
            idx,
            (k, cs[idx].1 + 1),
        ));
    }
}

proof fn lemma_spec_bump_new(cs: Seq<(Seq<char>, int)>, k: Seq<char>)
    requires
        forall|j: int| 0 <= j < cs.len() ==> cs[j].0 != k,
    ensures
        spec_bump(cs, k) == cs.push((k, 1int)),
    decreases cs.len(),
{
    if cs.len() == 0 {
        assert(spec_bump(cs, k) =~= cs.push((k, 1int)));
    } else {
        assert(forall|j: int| 0 <= j < cs.skip(1).len() ==> #[trigger] cs.skip(1)[j].0 != k) by {
            assert forall|j: int| 0 <= j < cs.skip(1).len() implies #[trigger] cs.skip(1)[j].0
                != k by {
                assert(cs.skip(1)[j] == cs[j + 1]);
            }
        }
        lemma_spec_bump_new(cs.skip(1), k);
        assert(seq![cs[0]] + cs.skip(1).push((k, 1int)) =~= cs.push((k, 1int)));
    }
}

/// The counts over a list of detected languages, in first-seen order.
pub open spec fn fold_counts(langs: Seq<Option<Seq<char>>>, acc: Seq<(Seq<char>, int)>) -> Seq<
    (Seq<char>, int),
>
    decreases langs.len(),
{
    if langs.len() == 0 {
        acc
    } else {
        fold_counts(
            langs.skip(1),
            match langs[0] {
                None => acc,
                Some(k) => spec_bump(acc, k),
            },
        )
    }
}

/// Finds the first entry with the key, if any.
fn find_key(counts: &Vec<(String, u64)>, k: &str) -> (r: Option<usize>)
    ensures
        match r {
            Some(j) => j < counts@.len() && counts@[j as int].0@ == k@ && (forall|q: int|
                0 <= q < j ==> (#[trigger] counts@[q]).0@ != k@),
            None => forall|q: int| 0 <= q < counts@.len() ==> (#[trigger] counts@[q]).0@ != k@,
        },
{
    let m = counts.len();
    let mut j: usize = 0;
    while j < m
        invariant
            m == counts@.len(),
            j <= m,
            forall|q: int| 0 <= q < j ==> (#[trigger] counts@[q]).0@ != k@,
        decreases m - j,
    {
        if str_eq(counts[j].0.as_str(), k) {
            return Some(j);
        }
        j = j + 1;
    }
    None
}

/// Counts how many files map to each language. The input is the
/// detected language of each file, `None` for files of no known
/// language; the result lists languages in first-seen order.
pub fn count_languages(detected: &Vec<Option<String>>) -> (r: Vec<(String, u64)>)
    ensures
        r@.map_values(|e: (String, u64)| (e.0@, e.1 as int)) == fold_counts(
            detected@.map_values(
                |o: Option<String>|
                    match o {
                        Some(s) => Some(s@),
                        None => None,
                    },
            ),
            Seq::empty(),
        ),
{
    let mut counts: Vec<(String, u64)> = Vec::new();
    let n = detected.len();
    let ghost dv = detected@.map_values(
        |o: Option<String>|
            match o {
                Some(s) => Some(s@),
                None => None::<Seq<char>>,
            },
    );
    let ghost target = fold_counts(dv, Seq::empty());
    let mut i: usize = 0;
    proof {
        assert(dv.skip(0) =~= dv);
        assert(counts@.map_values(|e: (String, u64)| (e.0@, e.1 as int)) =~= Seq::<(
            Seq<char>,
            int,
        )>::empty());
    }
    while i < n
        invariant
            n == dv.len(),
            dv == detected@.map_values(
                |o: Option<String>|
                    match o {
                        Some(s) => Some(s@),
                        None => None::<Seq<char>>,
                    },
            ),
            i <= n,
            forall|j: int|
                0 <= j < counts@.len() ==> 1 <= (#[trigger] counts@[j]).1 <= i,
            target == fold_counts(
                dv.skip(i as int),
                counts@.map_values(|e: (String, u64)| (e.0@, e.1 as int)),
            ),
        decreases n - i,
    {
        let ghost pre = counts@.map_values(|e: (String, u64)| (e.0@, e.1 as int));
        match &detected[i] {
            None => {
            },
            Some(lang) => {
                match find_key(&counts, lang.as_str()) {
                    Some(j) => {
                        let c = counts[j].1;
                        let k = counts[j].0.clone();
                        counts.remove(j);
                        counts.insert(j, (k, c + 1));
                        proof {
                            assert(pre[j as int].0 == lang@);
                            assert(forall|q: int| 0 <= q < j ==> (#[trigger] pre[q]).0 != lang@);
                            lemma_spec_bump(pre, lang@, j as int);
                            assert(counts@.map_values(|e: (String, u64)| (e.0@, e.1 as int))
                                =~= spec_bump(pre, lang@));
                        }
                    },
                    None => {
                        counts.push((lang.clone(), 1));
                        proof {
                            assert(forall|q: int|
                                0 <= q < pre.len() ==> (#[trigger] pre[q]).0 != lang@);
                            lemma_spec_bump_new(pre, lang@);
                            assert(counts@.map_values(|e: (String, u64)| (e.0@, e.1 as int))
                                =~= spec_bump(pre, lang@));
                        }
                    },
                }
            },
        }
        proof {
            assert(dv.skip(i as int)[0] == dv[i as int]);
            assert(dv.skip(i as int).skip(1) =~= dv.skip(i as int + 1));
        }
        i = i + 1;
    }
    proof {
        assert(dv.skip(n as int).len() == 0);
    }
    counts
}

/// The language propagated to the editor palette: the one with the
/// most files; among equals, the lexicographically greatest name.
pub fn active_language(counts: &Vec<(String, u64)>) -> (r: Option<String>)
    ensures
        match r {
            Some(k) => counts@.len() > 0 && (exists|idx: int|
                0 <= idx < counts@.len() && (#[trigger] counts@[idx]).0@ == k@ && (forall|j: int|
                    0 <= j < counts@.len() ==> (#[trigger] counts@[j]).1 <= counts@[idx].1)
                    && (forall|j: int|
                    0 <= j < counts@.len() && (#[trigger] counts@[j]).1 == counts@[idx].1
                        ==> !lex_lt(counts@[idx].0@, counts@[j].0@))),
            None => counts@.len() == 0,
        },
{
    let n = counts.len();
    if n == 0 {
        return None;
    }
    let mut best: usize = 0;
    let mut i: usize = 1;
    proof {
        crate::text::lemma_lex_lt_irrefl(counts@[0].0@);
    }
    while i < n
        invariant
            n == counts@.len(),
            best < i <= n,
            forall|j: int| 0 <= j < i ==> (#[trigger] counts@[j]).1 <= counts@[best as int].1,
            forall|j: int|
                0 <= j < i && (#[trigger] counts@[j]).1 == counts@[best as int].1 ==> !lex_lt(
                    counts@[best as int].0@,
                    counts@[j].0@,
                ),
        decreases n - i,
    {
        let better = if counts[i].1 > counts[best].1 {
            true
        } else if counts[i].1 == counts[best].1 {
            str_lex_lt(counts[best].0.as_str(), counts[i].0.as_str())
        } else {
            false
        };
        if better {
            proof {
                crate::text::lemma_lex_lt_irrefl(counts@[i as int].0@);
                assert forall|j: int|
                    0 <= j < i + 1 && (#[trigger] counts@[j]).1 == counts@[i as int].1
                        implies !lex_lt(counts@[i as int].0@, counts@[j].0@) by {
                    if j < i && lex_lt(counts@[i as int].0@, counts@[j].0@) {
                        crate::text::lemma_lex_lt_trans(
                            counts@[best as int].0@,
                            counts@[i as int].0@,
                            counts@[j].0@,
                        );
                    }
                }
            }
            best = i;
        }
        i = i + 1;
    }
    Some(counts[best].0.clone())
}

/// Nondecreasing by language name.
pub open spec fn sorted_counts(s: Seq<(Seq<char>, int)>) -> bool {
    forall|i: int, j: int|
        0 <= i < j < s.len() ==> !lex_lt((#[trigger] s[j]).0, (#[trigger] s[i]).0)
}

/// The position a count entry takes in a key-sorted list: before the
/// first entry whose name is greater.
fn count_insert_pos(out: &Vec<(String, u64)>, x: &str) -> (p: usize)
    ensures
        p <= out@.len(),
        forall|q: int| 0 <= q < p ==> !lex_lt(x@, (#[trigger] out@[q]).0@),
        p < out@.len() ==> lex_lt(x@, out@[p as int].0@),
{
    let m = out.len();
    let mut p: usize = 0;
    while p < m
        invariant
            m == out@.len(),
            p <= m,
            forall|q: int| 0 <= q < p ==> !lex_lt(x@, (#[trigger] out@[q]).0@),
        decreases m - p,
    {
        if str_lex_lt(x, out[p].0.as_str()) {
            return p;
        }
        p = p + 1;
    }
    p
}

proof fn lemma_count_insert_multiset(s: Seq<(Seq<char>, int)>, x: (Seq<char>, int), p: int)
    requires
        0 <= p <= s.len(),
    ensures
        s.insert(p, x).to_multiset() == s.push(x).to_multiset(),
{
    let l = s.take(p);
    let rrest = s.skip(p);
    assert(s.insert(p, x) =~= l + (seq![x] + rrest));
    assert(s.push(x) =~= l + (rrest + seq![x]));
    vstd::seq_lib::lemma_multiset_commutative(l, seq![x] + rrest);
    vstd::seq_lib::lemma_multiset_commutative(l, rrest + seq![x]);
    vstd::seq_lib::lemma_multiset_commutative(seq![x], rrest);
    vstd::seq_lib::lemma_multiset_commutative(rrest, seq![x]);
    assert((seq![x] + rrest).to_multiset() =~= (rrest + seq![x]).to_multiset());
    assert(s.insert(p, x).to_multiset() =~= s.push(x).to_multiset());
}

proof fn lemma_count_insert_order(
    s: Seq<(Seq<char>, int)>,
    x: (Seq<char>, int),
    p: int,
    a: int,
    b: int,
)
    requires
        0 <= p <= s.len(),
        sorted_counts(s),
        forall|q: int| 0 <= q < p ==> !lex_lt(x.0, (#[trigger] s[q]).0),
        p < s.len() ==> lex_lt(x.0, s[p].0),
        0 <= a < b < s.insert(p, x).len(),
    ensures
        !lex_lt(s.insert(p, x)[b].0, s.insert(p, x)[a].0),
{
    let t = s.insert(p, x);
    assert(t.len() == s.len() + 1);
    assert(forall|k: int| 0 <= k < p ==> t[k] == s[k]);
    assert(t[p] == x);
    assert(forall|k: int| p < k < t.len() ==> t[k] == s[k - 1]);
    if a < p && b < p {
    } else if a < p && b == p {
        assert(!lex_lt(x.0, s[a].0));
    } else if a < p && b > p {
        assert(!lex_lt(s[b - 1].0, s[a].0));
    } else if a == p && b > p {
        if lex_lt(s[b - 1].0, x.0) {
            assert(p < s.len());
            crate::text::lemma_lex_lt_trans(s[b - 1].0, x.0, s[p].0);
            if b - 1 > p {
                assert(!lex_lt(s[b - 1].0, s[p].0));
            } else {
                crate::text::lemma_lex_lt_irrefl(s[p].0);
            }
        }
    } else {
        assert(a > p && b > p);
        assert(!lex_lt(s[b - 1].0, s[a - 1].0));
    }
}

/// Sorts the counts by language name; the result holds the same
/// entries. The counts object is rendered in this order.
pub fn sort_counts(v: &Vec<(String, u64)>) -> (r: Vec<(String, u64)>)
    ensures
        sorted_counts(r@.map_values(|e: (String, u64)| (e.0@, e.1 as int))),
        r@.map_values(|e: (String, u64)| (e.0@, e.1 as int)).to_multiset() == v@.map_values(
            |e: (String, u64)| (e.0@, e.1 as int),
        ).to_multiset(),
{
    let mut out: Vec<(String, u64)> = Vec::new();
    let n = v.len();
    let ghost vv = v@.map_values(|e: (String, u64)| (e.0@, e.1 as int));
    let mut i: usize = 0;
    proof {
        assert(out@.map_values(|e: (String, u64)| (e.0@, e.1 as int)) =~= Seq::<(
            Seq<char>,
            int,
        )>::empty());
        assert(vv.take(0) =~= Seq::<(Seq<char>, int)>::empty());
        assert(out@.map_values(|e: (String, u64)| (e.0@, e.1 as int)).to_multiset() =~= vv.take(
            0,
        ).to_multiset());
    }
    while i < n
        invariant
            n == vv.len(),
            vv == v@.map_values(|e: (String, u64)| (e.0@, e.1 as int)),
            i <= n,
            sorted_counts(out@.map_values(|e: (String, u64)| (e.0@, e.1 as int))),
            out@.map_values(|e: (String, u64)| (e.0@, e.1 as int)).to_multiset() == vv.take(
                i as int,
            ).to_multiset(),
        decreases n - i,
    {
        let k = v[i].0.clone();
        let c = v[i].1;
        let ghost ov = out@.map_values(|e: (String, u64)| (e.0@, e.1 as int));
        let p = count_insert_pos(&out, k.as_str());
        out.insert(p, (k, c));
        proof {
            let nv2 = out@.map_values(|e: (String, u64)| (e.0@, e.1 as int));
            assert(nv2 =~= ov.insert(p as int, vv[i as int]));
            lemma_count_insert_multiset(ov, vv[i as int], p as int);
            assert(vv.take(i as int).push(vv[i as int]) =~= vv.take(i as int + 1));
            Seq::<(Seq<char>, int)>::to_multiset_ensures(ov);
            Seq::<(Seq<char>, int)>::to_multiset_ensures(vv.take(i as int));
            assert(nv2.to_multiset() =~= vv.take(i as int + 1).to_multiset());
            assert(sorted_counts(nv2)) by {
                assert forall|a: int, b: int| 0 <= a < b < nv2.len() implies !lex_lt(
                    (#[trigger] nv2[b]).0,
                    (#[trigger] nv2[a]).0,
                ) by {
                    lemma_count_insert_order(ov, vv[i as int], p as int, a, b);
                }
            }
        }
        i = i + 1;
    }
    proof {
        assert(vv.take(n as int) =~= vv);
    }
    out
}

} // verus!
