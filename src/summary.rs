//! Analyses of files: counts, keywords and a short readable summary. The size
//! of a file arrives already written (for example "1.50 KB").

use vstd::prelude::*;

use crate::category::{categorize_file, category_of, lower_of, lowercase};
use crate::keywords::{extract_keywords, is_top_ranking, lowered, regex_matches, views, without_stops, WORD_PATTERN};
use crate::records::FileAnalysis;
use vstd::string::StringSliceAdditionalSpecFns;
use crate::text_stats::{count_lines, count_words, decimal_of, decimal_text, line_and_word_counts};

verus! {

/// How many keywords an analysis keeps.
pub const KEYWORD_COUNT: usize = 10;

/// How many keywords a summary lists.
pub const LISTED_KEYWORDS: usize = 5;

/// Numbered lines, one per keyword, counting from 1.
pub open spec fn key_term_lines(k: Seq<Seq<char>>) -> Seq<char>
    decreases k.len(),
{
    if k.len() == 0 {
        Seq::empty()
    } else {
        key_term_lines(k.drop_last()) + "  "@ + decimal_of(k.len()) + ". "@ + k.last() + "\n"@
    }
}

/// The list of key terms, the first few of `k`; nothing when `k` is empty.
pub open spec fn key_terms_part(k: Seq<Seq<char>>) -> Seq<char> {
    if k.len() == 0 {
        Seq::empty()
    } else {
        "\n🔑 Key Terms:\n"@ + key_term_lines(
            if k.len() > LISTED_KEYWORDS {
                k.subrange(0, LISTED_KEYWORDS as int)
            } else {
                k
            },
        )
    }
}

/// A remark on the length of a document of `words` words.
pub open spec fn verdict(words: nat) -> Seq<char> {
    if words < 100 {
        "is relatively short and concise."@
    } else if words < 1000 {
        "contains moderate content suitable for quick review."@
    } else {
        "is substantial and may require focused reading time."@
    }
}

/// The summary of a text file. Its character figure is fifty per line.
pub open spec fn summary_text(
    name: Seq<char>,
    size: Seq<char>,
    lines: nat,
    words: nat,
    k: Seq<Seq<char>>,
) -> Seq<char> {
    "📄 File: "@ + name + "\n📦 Size: "@ + size + "\n📊 Statistics:\n  • "@ + decimal_of(lines)
        + " lines\n  • "@ + decimal_of(words) + " words\n  • "@ + decimal_of(lines * 50)
        + " characters\n"@ + key_terms_part(k) + "\n💡 This document "@ + verdict(words)
}

/// The summary of a file that is not read as text.
pub open spec fn binary_summary_text(
    name: Seq<char>,
    size: Seq<char>,
    file_type: Seq<char>,
    category: Seq<char>,
) -> Seq<char> {
    "📄 File: "@ + name + "\n📦 Size: "@ + size + "\n📋 Type: "@ + file_type
        + "\n🏷️ Category: "@ + category + "\n\n💡 This is a "@ + lower_of(category) + " file."@
}

/// Writes the summary of a text file.
pub fn generate_summary(
    file_name: &str,
    size_text: &str,
    line_count: usize,
    word_count: usize,
    keywords: &Vec<String>,
) -> (r: String)
    ensures
        r@ == summary_text(
            file_name@,
            size_text@,
            line_count as nat,
            word_count as nat,
            views(keywords@),
        ),
{
    let mut out = "📄 File: ".to_owned();
    out.append(file_name);
    out.append("\n📦 Size: ");
    out.append(size_text);
    out.append("\n📊 Statistics:\n  • ");
    out.append(decimal_text(line_count as u128).as_str());
    out.append(" lines\n  • ");
    out.append(decimal_text(word_count as u128).as_str());
    out.append(" words\n  • ");
    out.append(decimal_text((line_count as u128) * 50).as_str());
    out.append(" characters\n");
    let ghost head = out@;
    let ghost k = views(keywords@);
    if keywords.len() > 0 {
        out.append("\n🔑 Key Terms:\n");
        let shown: usize = if keywords.len() > LISTED_KEYWORDS {
            LISTED_KEYWORDS
        } else {
            keywords.len()
        };
        let ghost listed = if k.len() > LISTED_KEYWORDS {
            k.subrange(0, LISTED_KEYWORDS as int)
        } else {
            k
        };
        let ghost title = out@;
        let mut i: usize = 0;
        while i < shown
            invariant
                shown == listed.len(),
                shown <= keywords@.len(),
                k == views(keywords@),
                forall|j: int| 0 <= j < shown ==> #[trigger] listed[j] == k[j],
                0 <= i <= shown,
                out@ == title + key_term_lines(listed.subrange(0, i as int)),
            decreases shown - i,
        {
            let ghost prev = out@;
            out.append("  ");
            out.append(decimal_text((i + 1) as u128).as_str());
            out.append(". ");
            out.append(keywords[i].as_str());
            out.append("\n");
            proof {
                let sub = listed.subrange(0, i + 1);
                assert(sub.drop_last() =~= listed.subrange(0, i as int));
                assert(sub.last() == keywords@[i as int]@);
                assert(out@ =~= title + key_term_lines(sub));
            }
            i = i + 1;
        }
        assert(listed.subrange(0, shown as int) =~= listed);
        assert(out@ =~= head + key_terms_part(k));
    } else {
        assert(out@ =~= head + key_terms_part(k));
    }
    let ghost with_terms = out@;
    out.append("\n💡 This document ");
    if word_count < 100 {
        out.append("is relatively short and concise.");
    } else if word_count < 1000 {
        out.append("contains moderate content suitable for quick review.");
    } else {
        out.append("is substantial and may require focused reading time.");
    }
    assert(out@ =~= with_terms + "\n💡 This document "@ + verdict(word_count as nat));
    assert(out@ =~= summary_text(
        file_name@,
        size_text@,
        line_count as nat,
        word_count as nat,
        k,
    ));
    out
}

/// Analyses a text file: its lines, its words, its length in bytes, its
/// most frequent words and a summary of these.
pub fn analyze_text_content(file_name: &str, file_size: u64, size_text: &str, content: &str) -> (r:
    FileAnalysis)
    ensures
        r.file_name@ == file_name@,
        r.file_size == file_size,
        r.line_count == count_lines(content@),
        r.word_count == count_words(content@),
        r.char_count == content.spec_bytes().len() as usize,
        is_top_ranking(
            views(r.top_keywords@),
            without_stops(lowered(regex_matches(WORD_PATTERN@, content@))),
            KEYWORD_COUNT as int,
        ) || r.top_keywords@.len() == 0,
        r.summary@ == summary_text(
            file_name@,
            size_text@,
            r.line_count as nat,
            r.word_count as nat,
            views(r.top_keywords@),
        ),
{
    let (line_count, word_count) = line_and_word_counts(content);
    let char_count = content.len();
    let top_keywords = extract_keywords(content, KEYWORD_COUNT);
    let summary = generate_summary(file_name, size_text, line_count, word_count, &top_keywords);
    FileAnalysis {
        file_name: file_name.to_owned(),
        file_size,
        line_count,
        word_count,
        char_count,
        top_keywords,
        summary,
    }
}

/// Analyses a file that is not read as text: its type (or "unknown") and its
/// category, without counts or keywords.
pub fn analyze_binary_file(
    file_name: &str,
    file_size: u64,
    size_text: &str,
    mime_type: Option<&str>,
) -> (r: FileAnalysis)
    ensures
        r.file_name@ == file_name@,
        r.file_size == file_size,
        r.line_count == 0,
        r.word_count == 0,
        r.char_count == 0,
        r.top_keywords@.len() == 0,
        ({
            let file_type = match mime_type {
                Some(m) => m@,
                None => "unknown"@,
            };
            r.summary@ == binary_summary_text(
                file_name@,
                size_text@,
                file_type,
                category_of(lower_of(file_name@), file_type),
            )
        }),
{
    let file_type: &str = match mime_type {
        Some(m) => m,
        None => "unknown",
    };
    let category = categorize_file(file_name, file_type);
    let mut summary = "📄 File: ".to_owned();
    summary.append(file_name);
    summary.append("\n📦 Size: ");
    summary.append(size_text);
    summary.append("\n📋 Type: ");
    summary.append(file_type);
    summary.append("\n🏷️ Category: ");
    summary.append(category);
    summary.append("\n\n💡 This is a ");
    summary.append(lowercase(category).as_str());
    summary.append(" file.");
    assert(summary@ =~= binary_summary_text(file_name@, size_text@, file_type@, category@));
    FileAnalysis {
        file_name: file_name.to_owned(),
        file_size,
        line_count: 0,
        word_count: 0,
        char_count: 0,
        top_keywords: Vec::new(),
        summary,
    }
}

} // verus!
