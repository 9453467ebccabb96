//! Captions: the text posted with each record, in the transport's MarkdownV2.
use crate::record::{Images, Record};
use vstd::prelude::*;

verus! {

/// Characters that MarkdownV2 reserves and that plain text must escape.
pub open spec fn is_reserved(c: char) -> bool {
    c == '_' || c == '*' || c == '[' || c == ']' || c == '(' || c == ')' || c == '~' || c == '`'
        || c == '>' || c == '#' || c == '+' || c == '-' || c == '=' || c == '|' || c == '{' || c
        == '}' || c == '.' || c == '!'
}

/// `c` as plain text in MarkdownV2.
pub open spec fn escaped_char(c: char) -> Seq<char> {
    if is_reserved(c) {
        seq!['\\', c]
    } else {
        seq![c]
    }
}

/// `s` as plain text in MarkdownV2: each reserved character preceded by a
/// backslash.
pub open spec fn escaped(s: Seq<char>) -> Seq<char>
    decreases s.len(),
{
    if s.len() == 0 {
        Seq::empty()
    } else {
        escaped(s.drop_last()) + escaped_char(s.last())
    }
}

fn is_reserved_char(c: char) -> (r: bool)
    ensures
        r == is_reserved(c),
{
    c == '_' || c == '*' || c == '[' || c == ']' || c == '(' || c == ')' || c == '~' || c == '`'
        || c == '>' || c == '#' || c == '+' || c == '-' || c == '=' || c == '|' || c == '{' || c
        == '}' || c == '.' || c == '!'
}

/// Escapes `text` for MarkdownV2.
pub fn markdown_escape(text: &str) -> (r: String)
    ensures
        r@ == escaped(text@),
{
    let n = text.unicode_len();
    let mut out = String::new();
    let mut i: usize = 0;
    proof {
        assert(text@.take(0) =~= Seq::<char>::empty());
    }
    while i < n
        invariant
            i <= n,
            n == text@.len(),
            out@ == escaped(text@.take(i as int)),
        decreases n - i,
    {
        let c = text.get_char(i);
        proof {
            reveal_strlit("\\");
            assert(text@.take(i + 1).drop_last() =~= text@.take(i as int));
            assert(text@.take(i + 1).last() == c);
        }
        let ghost before = out@;
        if is_reserved_char(c) {
            out.append("\\");
        }
        let one = text.substring_char(i, i + 1);
        assert(one@ =~= seq![c]);
        out.append(one);
        assert(out@ =~= before + escaped_char(c));
        i = i + 1;
    }
    assert(text@.take(n as int) =~= text@);
    out
}

/// The decimal digit for `d`, which is below ten.
pub open spec fn digit_char(d: int) -> char {
    if d == 0 {
        '0'
    } else if d == 1 {
        '1'
    } else if d == 2 {
        '2'
    } else if d == 3 {
        '3'
    } else if d == 4 {
        '4'
    } else if d == 5 {
        '5'
    } else if d == 6 {
        '6'
    } else if d == 7 {
        '7'
    } else if d == 8 {
        '8'
    } else {
        '9'
    }
}

/// `n` in decimal, without leading zeros.
pub open spec fn decimal_text(n: nat) -> Seq<char>
    decreases n,
{
    if n < 10 {
        seq![digit_char(n as int)]
    } else {
        decimal_text(n / 10).push(digit_char((n % 10) as int))
    }
}

/// Writes `n` in decimal.
pub fn decimal(n: usize) -> (r: String)
    ensures
        r@ == decimal_text(n as nat),
    decreases n,
{
    let digits = "0123456789";
    proof {
        reveal_strlit("0123456789");
    }
    let d = n % 10;
    let last = digits.substring_char(d, d + 1);
    assert(last@ =~= seq![digit_char(d as int)]);
    if n < 10 {
        last.to_owned()
    } else {
        let mut out = decimal(n / 10);
        out.append(last);
        out
    }
}

/// The caption's first line: the title, linked to the illustration's page.
pub open spec fn title_line(title: Seq<char>, id: Seq<char>) -> Seq<char> {
    "Title: ["@ + escaped(title) + " \\("@ + id + "\\)](https://www\\.pixiv\\.net/artworks/"@ + id
        + ")"@
}

/// The caption's second line: the author, linked to their page.
pub open spec fn author_line(name: Seq<char>, user_id: Seq<char>) -> Seq<char> {
    "Author: ["@ + escaped(name) + "](https://www\\.pixiv\\.net/users/"@ + user_id + ")"@
}

/// One tag as a hashtag linked to the tag's page.
pub open spec fn tag_link(tag: Seq<char>) -> Seq<char> {
    "[\\#"@ + escaped(tag) + "](https://www\\.pixiv\\.net/tags/"@ + escaped(tag) + "/artworks)"@
}

/// The links of `tags`, in order, separated by ", ".
pub open spec fn tag_links(tags: Seq<String>) -> Seq<char>
    decreases tags.len(),
{
    if tags.len() == 0 {
        Seq::empty()
    } else if tags.len() == 1 {
        tag_link(tags[0]@)
    } else {
        tag_links(tags.drop_last()) + ", "@ + tag_link(tags.last()@)
    }
}

/// The last line of a multi-page record's caption; a single image has none.
pub open spec fn pages_line(images: Images) -> Seq<char> {
    match images {
        Images::Paged { total, .. } => "\n"@ + "Pages: "@ + decimal_text(total as nat),
        Images::Single { .. } => Seq::empty(),
    }
}

/// The caption of `rec`: title, author and tags lines, and for a multi-page
/// record the number of its pages.
pub open spec fn caption_text(rec: Record) -> Seq<char> {
    title_line(rec.title@, rec.id@) + "\n"@ + author_line(rec.author_name@, rec.author_id@) + "\n"@
        + "Tags: "@ + tag_links(rec.tags@) + pages_line(rec.images)
}

/// Builds the caption of `record`.
pub fn build_caption(record: &Record) -> (r: String)
    ensures
        r@ == caption_text(*record),
{
    let mut out = String::new();
    out.append("Title: [");
    assert(out@ =~= "Title: ["@);
    out.append(markdown_escape(record.title.as_str()).as_str());
    out.append(" \\(");
    out.append(record.id.as_str());
    out.append("\\)](https://www\\.pixiv\\.net/artworks/");
    out.append(record.id.as_str());
    out.append(")");
    assert(out@ == title_line(record.title@, record.id@));
    out.append("\n");
    out.append("Author: [");
    out.append(markdown_escape(record.author_name.as_str()).as_str());
    out.append("](https://www\\.pixiv\\.net/users/");
    out.append(record.author_id.as_str());
    out.append(")");
    proof {
        let a = author_line(record.author_name@, record.author_id@);
        assert(out@ =~= title_line(record.title@, record.id@) + "\n"@ + a);
    }
    out.append("\n");
    out.append("Tags: ");
    let ghost head = out@;
    let tags = &record.tags;
    let mut i: usize = 0;
    assert(tags@.take(0) =~= Seq::<String>::empty());
    assert(out@ =~= head + tag_links(tags@.take(0)));
    while i < tags.len()
        invariant
            i <= tags@.len(),
            tags == &record.tags,
            out@ == head + tag_links(tags@.take(i as int)),
        decreases tags@.len() - i,
    {
        let ghost before = out@;
        assert(tags@.take(i + 1).drop_last() =~= tags@.take(i as int));
        if i > 0 {
            out.append(", ");
        }
        let tag = markdown_escape(tags[i].as_str());
        out.append("[\\#");
        out.append(tag.as_str());
        out.append("](https://www\\.pixiv\\.net/tags/");
        out.append(tag.as_str());
        out.append("/artworks)");
        proof {
            let t = tag_link(tags@[i as int]@);
            if i > 0 {
                assert(out@ =~= before + ", "@ + t);
            } else {
                assert(tags@.take(1) =~= seq![tags@[0]]);
                assert(out@ =~= before + t);
            }
        }
        i = i + 1;
    }
    assert(tags@.take(tags@.len() as int) =~= tags@);
    match &record.images {
        Images::Paged { total, .. } => {
            out.append("\n");
            out.append("Pages: ");
            out.append(decimal(*total).as_str());
            assert(out@ =~= caption_text(*record));
        },
        Images::Single { .. } => {
            assert(out@ =~= caption_text(*record));
        },
    }
    out
}

} // verus!
