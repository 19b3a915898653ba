//! The messages of the ffmpeg runs that extract, convert and assemble audio.

use vstd::prelude::*;
use crate::text::{append_str, join_char_lines, join_lines, lines_spec, split_lines};

verus! {

/// The message shown when ffmpeg is not installed.
pub open spec fn ffmpeg_missing_spec() -> Seq<char> {
    "ffmpeg no está instalado o no está en el PATH. Instálalo con el gestor de paquetes del sistema (p. ej. `sudo pacman -S ffmpeg` o `sudo apt install ffmpeg`)."@
}

/// The message shown when ffmpeg is not installed; other modules that run
/// ffmpeg use it too.
pub fn ffmpeg_missing_message() -> (r: String)
    ensures
        r@ == ffmpeg_missing_spec(),
{
    "ffmpeg no está instalado o no está en el PATH. Instálalo con el gestor de paquetes del sistema (p. ej. `sudo pacman -S ffmpeg` o `sudo apt install ffmpeg`).".to_owned()
}

/// At most the last `n` lines of `ls`.
pub open spec fn last_lines(ls: Seq<Seq<char>>, n: nat) -> Seq<Seq<char>> {
    if ls.len() <= n {
        ls
    } else {
        ls.subrange(ls.len() - n, ls.len() as int)
    }
}

/// The message for a failed ffmpeg run: what it was doing, then the last five
/// lines of its error output, where the actual error is.
pub open spec fn ffmpeg_failure_spec(action: Seq<char>, stderr: Seq<char>) -> Seq<char> {
    "ffmpeg falló al "@ + action + ":\n"@ + join_lines(last_lines(lines_spec(stderr), 5))
}

/// The message for a failed ffmpeg run doing `action`, from its error output.
pub fn ffmpeg_failure(action: &str, stderr: &str) -> (r: String)
    ensures
        r@ == ffmpeg_failure_spec(action@, stderr@),
{
    let ls = split_lines(stderr);
    let ghost views = ls@.map_values(|l: Vec<char>| l@);
    let from: usize = if ls.len() <= 5 { 0 } else { ls.len() - 5 };
    let mut tail: Vec<Vec<char>> = Vec::new();
    let mut i = from;
    while i < ls.len()
        invariant
            from <= i <= ls.len(),
            views == ls@.map_values(|l: Vec<char>| l@),
            tail@.map_values(|l: Vec<char>| l@) == views.subrange(from as int, i as int),
        decreases ls.len() - i,
    {
        let line = crate::media::slice_of(&ls[i], 0, ls[i].len());
        assert(line@ =~= ls@[i as int]@);
        let ghost lv = line@;
        let ghost before = tail@.map_values(|l: Vec<char>| l@);
        assert(views[i as int] == lv);
        tail.push(line);
        assert(tail@.map_values(|l: Vec<char>| l@) =~= before.push(lv));
        assert(tail@.map_values(|l: Vec<char>| l@) =~= views.subrange(from as int, i + 1));
        i += 1;
    }
    assert(views.subrange(from as int, ls.len() as int) =~= last_lines(views, 5));
    let mut r = String::new();
    append_str(&mut r, "ffmpeg falló al ");
    append_str(&mut r, action);
    append_str(&mut r, ":\n");
    let joined = join_char_lines(tail.as_slice());
    append_str(&mut r, joined.as_str());
    assert(r@ =~= ffmpeg_failure_spec(action@, stderr@));
    r
}

} // verus!
