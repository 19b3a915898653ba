//! The presentation video's pieces that are not arithmetic on times: the page
//! count that `pdfinfo` reports, the names the rasterized pages end up with,
//! and the lines of the image list given to ffmpeg.

use vstd::prelude::*;
use crate::paths::{extension, extension_spec, join, join_spec};
use crate::project::pages_dir_spec;
use crate::text::{
    after_first, append_chars, append_str, ascii_lower_seq, before_first, chars_of, concat,
    decimal, decimal_string, lines_spec, lower_chars, parse_u32, parse_unsigned, push_char,
    sort_texts, sorted_texts, split_at_first, split_lines, trim, trim_chars,
};

verus! {

/// Refuses a presentation whose PDF has no pages; any other page count is
/// composed.
pub fn check_page_count(page_count: u32) -> (r: Result<(), String>)
    ensures
        page_count == 0 ==> (r matches Err(e) && e@ == "El PDF no tiene páginas."@),
        page_count > 0 ==> r is Ok,
{
    if page_count == 0 {
        return Err("El PDF no tiene páginas.".to_owned());
    }
    Ok(())
}

/// The message shown when `pdfinfo` is not installed.
pub fn pdfinfo_missing_message() -> (r: String)
    ensures
        r@ == "pdfinfo no está instalado o no está en el PATH. Instálalo con el gestor de paquetes del sistema (p. ej. `sudo pacman -S poppler` o `sudo apt install poppler-utils`). pdfinfo viene con poppler."@,
{
    "pdfinfo no está instalado o no está en el PATH. Instálalo con el gestor de paquetes del sistema (p. ej. `sudo pacman -S poppler` o `sudo apt install poppler-utils`). pdfinfo viene con poppler.".to_owned()
}

/// The message shown when `pdftoppm` is not installed.
pub fn pdftoppm_missing_message() -> (r: String)
    ensures
        r@ == "pdftoppm no está instalado o no está en el PATH. Instálalo con el gestor de paquetes del sistema (p. ej. `sudo pacman -S poppler` o `sudo apt install poppler-utils`). pdftoppm viene con poppler."@,
{
    "pdftoppm no está instalado o no está en el PATH. Instálalo con el gestor de paquetes del sistema (p. ej. `sudo pacman -S poppler` o `sudo apt install poppler-utils`). pdftoppm viene con poppler.".to_owned()
}

/// The message for a failed `pdfinfo` run, from its error output.
pub fn pdfinfo_failure(stderr: &str) -> (r: String)
    ensures
        r@ == "pdfinfo falló: "@ + trim(stderr@),
{
    let cs = chars_of(stderr);
    let t = trim_chars(cs.as_slice());
    let mut r = String::new();
    append_str(&mut r, "pdfinfo falló: ");
    append_chars(&mut r, t.as_slice());
    r
}

/// The key of a `key: value` line, trimmed.
pub open spec fn info_key(line: Seq<char>) -> Seq<char> {
    trim(before_first(line, ':'))
}

/// The value of a `key: value` line, trimmed; empty when there is no `:`.
pub open spec fn info_value(line: Seq<char>) -> Seq<char> {
    trim(after_first(line, ':'))
}

/// The page count among the lines of `pdfinfo`'s output: the value of the
/// first line whose key is `Pages` in any case.
pub open spec fn page_count_spec(ls: Seq<Seq<char>>) -> Result<u32, Seq<char>>
    decreases ls.len(),
{
    if ls.len() == 0 {
        Err("pdfinfo no reportó el conteo de páginas."@)
    } else if ascii_lower_seq(info_key(ls[0])) == "pages"@ {
        match parse_unsigned(info_value(ls[0]), u32::MAX as nat) {
            Ok(v) => Ok(v as u32),
            Err(k) => Err("No se pudo leer el conteo de páginas: "@ + k.text_spec()),
        }
    } else {
        page_count_spec(ls.drop_first())
    }
}

fn is_pages_key(key: &[char]) -> (r: bool)
    ensures
        r == (ascii_lower_seq(key@) == "pages"@),
{
    let l = lower_chars(key);
    proof {
        reveal_strlit("pages");
    }
    let r = l.len() == 5 && l[0] == 'p' && l[1] == 'a' && l[2] == 'g' && l[3] == 'e' && l[4] == 's';
    proof {
        if r {
            assert(l@ =~= "pages"@);
        } else if l@ == "pages"@ {
            assert(l@[0] == 'p' && l@[1] == 'a' && l@[2] == 'g' && l@[3] == 'e' && l@[4] == 's');
        }
    }
    r
}

/// Reads the page count from the output of `pdfinfo`.
pub fn page_count_from_pdfinfo(stdout: &str) -> (r: Result<u32, String>)
    ensures
        match page_count_spec(lines_spec(stdout@)) {
            Ok(v) => r == Ok::<u32, String>(v),
            Err(m) => r matches Err(e) && e@ == m,
        },
{
    let ls = split_lines(stdout);
    let ghost views = ls@.map_values(|l: Vec<char>| l@);
    let mut i: usize = 0;
    assert(views.subrange(0, views.len() as int) =~= views);
    while i < ls.len()
        invariant
            i <= ls.len(),
            views == ls@.map_values(|l: Vec<char>| l@),
            views == lines_spec(stdout@),
            page_count_spec(views) == page_count_spec(views.subrange(i as int, views.len() as int)),
        decreases ls.len() - i,
    {
        let ghost rest = views.subrange(i as int, views.len() as int);
        assert(rest.drop_first() =~= views.subrange(i + 1, views.len() as int));
        assert(rest[0] == ls@[i as int]@);
        let (k, v) = split_at_first(ls[i].as_slice(), ':');
        let key = trim_chars(k.as_slice());
        assert(info_key(rest[0]) == key@);
        if is_pages_key(key.as_slice()) {
            let value = trim_chars(v.as_slice());
            assert(info_value(rest[0]) == value@);
            assert(page_count_spec(rest) == match parse_unsigned(value@, u32::MAX as nat) {
                Ok(v) => Ok(v as u32),
                Err(k) => Err("No se pudo leer el conteo de páginas: "@ + k.text_spec()),
            });
            let parsed = parse_u32(value.as_slice());
            match parsed {
                Ok(n) => {
                    assert(page_count_spec(rest) == Ok::<u32, Seq<char>>(n));
                    return Ok(n);
                },
                Err(kind) => {
                    let e = concat("No se pudo leer el conteo de páginas: ", kind.text());
                    assert(page_count_spec(rest) == Err::<u32, Seq<char>>(e@));
                    return Err(e);
                },
            }
        }
        i += 1;
    }
    Err("pdfinfo no reportó el conteo de páginas.".to_owned())
}

/// Whether a path names a PNG image: its extension is `png` in any case.
pub open spec fn is_png_path(p: Seq<char>) -> bool {
    match extension_spec(p) {
        None => false,
        Some(e) => ascii_lower_seq(e) == "png"@,
    }
}

/// Whether a path names a PNG image.
pub fn is_png(p: &str) -> (r: bool)
    ensures
        r == is_png_path(p@),
{
    match extension(p) {
        None => false,
        Some(e) => {
            let l = lower_chars(chars_of(e.as_str()).as_slice());
            proof {
                reveal_strlit("png");
            }
            let r = l.len() == 3 && l[0] == 'p' && l[1] == 'n' && l[2] == 'g';
            proof {
                if r {
                    assert(l@ =~= "png"@);
                } else if l@ == "png"@ {
                    assert(l@[0] == 'p' && l@[1] == 'n' && l@[2] == 'g');
                }
            }
            r
        },
    }
}

/// The images among `entries`, in their order.
pub open spec fn png_entries(entries: Seq<Seq<char>>) -> Seq<Seq<char>>
    decreases entries.len(),
{
    if entries.len() == 0 {
        Seq::empty()
    } else {
        let rest = png_entries(entries.drop_last());
        if is_png_path(entries.last()) {
            rest.push(entries.last())
        } else {
            rest
        }
    }
}

/// One page to rename: from its rasterized name, through a temporary name, to
/// `page-<n>.png`.
#[derive(Debug)]
pub struct PageRename {
    pub from: String,
    pub temporary: String,
    pub to: String,
}

/// The message when the rasterizer made another number of pages than the PDF has.
pub open spec fn page_mismatch_spec(made: nat, page_count: u32) -> Seq<char> {
    "pdftoppm generó "@ + decimal(made) + " páginas pero el PDF dice "@ + decimal(page_count as nat) + "."@
}

/// The renames that give the rasterized pages in `out_dir` the names
/// `page-1.png`, `page-2.png`, ...: the PNG images among `entries`, sorted, the
/// `i`-th going through `.rename-<i>.tmp` to `page-<i>.png` (1-based); an error
/// when there are not `page_count` of them.
pub fn page_rename_plan(out_dir: &str, entries: &Vec<String>, page_count: u32) -> (r: Result<
    Vec<PageRename>,
    String,
>)
    ensures
        png_entries(entries@.map_values(|s: String| s@)).len() != page_count ==> (r matches Err(e)
            && e@ == page_mismatch_spec(png_entries(entries@.map_values(|s: String| s@)).len(), page_count)),
        png_entries(entries@.map_values(|s: String| s@)).len() == page_count ==> (r matches Ok(plan) && {
            &&& plan.len() == page_count
            &&& plan@.map_values(|p: PageRename| p.from@).to_multiset() == png_entries(entries@.map_values(|s: String| s@)).to_multiset()
            &&& sorted_texts(plan@.map_values(|p: PageRename| p.from@))
            &&& forall|i: int| 0 <= i < plan.len() ==> (#[trigger] plan@[i]).temporary@ == join_spec(out_dir@, ".rename-"@ + decimal((i + 1) as nat) + ".tmp"@)
                && plan@[i].to@ == join_spec(out_dir@, "page-"@ + decimal((i + 1) as nat) + ".png"@)
        }),
{
    let ghost views = entries@.map_values(|s: String| s@);
    let mut pngs: Vec<String> = Vec::new();
    let mut i: usize = 0;
    while i < entries.len()
        invariant
            i <= entries.len(),
            views == entries@.map_values(|s: String| s@),
            pngs@.map_values(|s: String| s@) == png_entries(views.subrange(0, i as int)),
            pngs.len() <= i,
        decreases entries.len() - i,
    {
        let ghost pre = views.subrange(0, i + 1);
        assert(pre.drop_last() =~= views.subrange(0, i as int));
        if is_png(entries[i].as_str()) {
            pngs.push(entries[i].clone());
        }
        assert(pngs@.map_values(|s: String| s@) =~= png_entries(pre));
        i += 1;
    }
    assert(views.subrange(0, entries.len() as int) =~= views);
    let sorted = sort_texts(&pngs);
    proof {
        vstd::seq_lib::to_multiset_len(sorted@.map_values(|s: String| s@));
        vstd::seq_lib::to_multiset_len(pngs@.map_values(|s: String| s@));
    }
    if sorted.len() as u64 != page_count as u64 {
        let mut e = String::new();
        append_str(&mut e, "pdftoppm generó ");
        append_str(&mut e, decimal_string(sorted.len() as u64).as_str());
        append_str(&mut e, " páginas pero el PDF dice ");
        append_str(&mut e, decimal_string(page_count as u64).as_str());
        append_str(&mut e, ".");
        assert(e@ =~= page_mismatch_spec(png_entries(views).len(), page_count));
        return Err(e);
    }
    let mut plan: Vec<PageRename> = Vec::new();
    let mut k: usize = 0;
    while k < sorted.len()
        invariant
            k <= sorted.len(),
            sorted.len() == page_count,
            plan.len() == k,
            forall|j: int| 0 <= j < k ==> (#[trigger] plan@[j]).from@ == sorted@[j]@,
            forall|j: int| 0 <= j < k ==> (#[trigger] plan@[j]).temporary@ == join_spec(out_dir@, ".rename-"@ + decimal((j + 1) as nat) + ".tmp"@)
                && plan@[j].to@ == join_spec(out_dir@, "page-"@ + decimal((j + 1) as nat) + ".png"@),
        decreases sorted.len() - k,
    {
        let n = decimal_string((k as u64) + 1);
        let tmp_name = concat(".rename-", n.as_str());
        let tmp_name = concat(tmp_name.as_str(), ".tmp");
        let page_name = concat("page-", n.as_str());
        let page_name = concat(page_name.as_str(), ".png");
        plan.push(
            PageRename {
                from: sorted[k].clone(),
                temporary: join(out_dir, tmp_name.as_str()),
                to: join(out_dir, page_name.as_str()),
            },
        );
        k += 1;
    }
    assert(plan@.map_values(|p: PageRename| p.from@) =~= sorted@.map_values(|s: String| s@));
    Ok(plan)
}

/// The image of the page `page` of the project at `dir`:
/// `slides/pages/page-<page>.png`.
pub fn slide_image(dir: &str, page: u32) -> (r: String)
    ensures
        r@ == join_spec(pages_dir_spec(dir@), "page-"@ + decimal(page as nat) + ".png"@),
{
    let pages = crate::project::pages_dir(dir);
    let name = concat("page-", decimal_string(page as u64).as_str());
    let name = concat(name.as_str(), ".png");
    join(pages.as_str(), name.as_str())
}

/// `s` with every `'` written as `'\''`, so that it can stand between single
/// quotes in ffmpeg's list of images.
pub open spec fn quote_spec(s: Seq<char>) -> Seq<char>
    decreases s.len(),
{
    if s.len() == 0 {
        Seq::empty()
    } else {
        quote_spec(s.drop_last()) + if s.last() == '\'' {
            seq!['\'', '\\', '\'', '\'']
        } else {
            seq![s.last()]
        }
    }
}

/// The line that names the image of page `page` in ffmpeg's list of images:
/// `file '<path>'`, the path quoted.
pub fn concat_file_line(pages_dir: &str, page: u32) -> (r: String)
    ensures
        r@ == "file '"@ + quote_spec(join_spec(pages_dir@, "page-"@ + decimal(page as nat) + ".png"@)) + "'\n"@,
{
    let name = concat("page-", decimal_string(page as u64).as_str());
    let name = concat(name.as_str(), ".png");
    let path = join(pages_dir, name.as_str());
    let cs = chars_of(path.as_str());
    let mut q = String::new();
    let mut i: usize = 0;
    while i < cs.len()
        invariant
            i <= cs.len(),
            q@ == quote_spec(cs@.subrange(0, i as int)),
        decreases cs.len() - i,
    {
        let ghost pre = cs@.subrange(0, i + 1);
        assert(pre.drop_last() =~= cs@.subrange(0, i as int));
        if cs[i] == '\'' {
            push_char(&mut q, '\'');
            push_char(&mut q, '\\');
            push_char(&mut q, '\'');
            push_char(&mut q, '\'');
        } else {
            push_char(&mut q, cs[i]);
        }
        assert(q@ =~= quote_spec(pre));
        i += 1;
    }
    assert(cs@.subrange(0, cs@.len() as int) =~= cs@);
    let mut r = String::new();
    append_str(&mut r, "file '");
    append_str(&mut r, q.as_str());
    append_str(&mut r, "'\n");
    r
}

/// The page shown after each segment: a segment that names a page switches
/// to it, brought within `1..=page_count`; one that names none keeps the page
/// shown before it, page 1 at the start.
pub open spec fn pages_in_effect_spec(slides: Seq<Option<u32>>, page_count: u32) -> Seq<u32>
    decreases slides.len(),
{
    if slides.len() == 0 {
        Seq::empty()
    } else {
        let before = pages_in_effect_spec(slides.drop_last(), page_count);
        let current: u32 = if before.len() == 0 { 1 } else { before.last() };
        let next: u32 = match slides.last() {
            None => current,
            Some(p) => if p < 1 { 1 } else if p > page_count { page_count } else { p },
        };
        before.push(next)
    }
}

/// The page shown after each segment, from the pages the segments name.
pub fn pages_in_effect(slides: &Vec<Option<u32>>, page_count: u32) -> (r: Vec<u32>)
    requires
        page_count >= 1,
    ensures
        r@ == pages_in_effect_spec(slides@, page_count),
        forall|i: int| 0 <= i < r.len() ==> 1 <= #[trigger] r@[i] <= page_count,
{
    let mut out: Vec<u32> = Vec::new();
    let mut current: u32 = 1;
    let mut i: usize = 0;
    while i < slides.len()
        invariant
            i <= slides.len(),
            page_count >= 1,
            out@ == pages_in_effect_spec(slides@.subrange(0, i as int), page_count),
            current == (if i == 0 { 1 } else { out@.last() }),
            1 <= current <= page_count,
            forall|k: int| 0 <= k < out.len() ==> 1 <= #[trigger] out@[k] <= page_count,
        decreases slides.len() - i,
    {
        let ghost pre = slides@.subrange(0, i + 1);
        assert(pre.drop_last() =~= slides@.subrange(0, i as int));
        assert(pre.last() == slides@[i as int]);
        match slides[i] {
            None => {},
            Some(p) => {
                current = if p < 1 {
                    1
                } else if p > page_count {
                    page_count
                } else {
                    p
                };
            },
        }
        out.push(current);
        i += 1;
    }
    assert(slides@.subrange(0, slides@.len() as int) =~= slides@);
    out
}

} // verus!
