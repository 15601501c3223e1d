//! The pure parts of the two lookups: the addresses they open and the
//! filtering of cheat-sheet lines by section.

use vstd::prelude::*;
use crate::store::string_views;

verus! {

/// Unicode's White_Space property.
pub open spec fn is_white_space(c: char) -> bool {
    let n = c as u32;
    (0x9 <= n <= 0xd) || n == 0x20 || n == 0x85 || n == 0xa0 || n == 0x1680 || (0x2000 <= n
        <= 0x200a) || n == 0x2028 || n == 0x2029 || n == 0x202f || n == 0x205f || n == 0x3000
}

/// `s` without its leading white space.
pub open spec fn trim_start_of(s: Seq<char>) -> Seq<char>
    decreases s.len(),
{
    if s.len() > 0 && is_white_space(s[0]) {
        trim_start_of(s.subrange(1, s.len() as int))
    } else {
        s
    }
}

/// Relies on str::trim_start: it drops the leading characters that have
/// Unicode's White_Space property.
#[verifier::external_body]
fn trim_start<'a>(s: &'a str) -> (r: &'a str)
    ensures
        r@ == trim_start_of(s@),
{
    s.trim_start()
}

pub open spec fn is_prefix(p: Seq<char>, s: Seq<char>) -> bool {
    p.len() <= s.len() && s.subrange(0, p.len() as int) == p
}

/// A cheat-sheet line belongs to section `sec` when, past its leading white
/// space, it starts with the section's name, a colon and a space.
pub open spec fn line_in_section(line: Seq<char>, sec: Seq<char>) -> bool {
    is_prefix(sec + ": "@, trim_start_of(line))
}

/// The lines of `ls` that belong to section `sec`, in their order.
pub open spec fn lines_in_section(ls: Seq<Seq<char>>, sec: Seq<char>) -> Seq<Seq<char>>
    decreases ls.len(),
{
    if ls.len() == 0 {
        Seq::empty()
    } else if line_in_section(ls.last(), sec) {
        lines_in_section(ls.drop_last(), sec).push(ls.last())
    } else {
        lines_in_section(ls.drop_last(), sec)
    }
}

/// The address of the cheat sheet of `comando`.
pub fn cheat_url(comando: &str) -> (r: String)
    ensures
        r@ == "https://cheat.sh/"@ + comando@,
{
    let mut url = "https://cheat.sh/".to_owned();
    url.append(comando);
    url
}

/// The address of the registry page of the crate `nombre`.
pub fn crate_url(nombre: &str) -> (r: String)
    ensures
        r@ == "https://crates.io/crates/"@ + nombre@,
{
    let mut url = "https://crates.io/crates/".to_owned();
    url.append(nombre);
    url
}

fn starts_with(s: &str, p: &str) -> (r: bool)
    ensures
        r == is_prefix(p@, s@),
{
    let n = s.unicode_len();
    let m = p.unicode_len();
    if m > n {
        return false;
    }
    let mut i: usize = 0;
    while i < m
        invariant
            m == p@.len(),
            n == s@.len(),
            m <= n,
            i <= m,
            forall|k: int| 0 <= k < i ==> s@[k] == p@[k],
        decreases m - i,
    {
        if s.get_char(i) != p.get_char(i) {
            proof {
                assert(s@.subrange(0, m as int)[i as int] != p@[i as int]);
            }
            return false;
        }
        i += 1;
    }
    proof {
        assert(s@.subrange(0, m as int) =~= p@);
    }
    true
}

/// Whether cheat-sheet line `linea` belongs to section `seccion`.
pub fn linea_en_seccion(linea: &str, seccion: &str) -> (r: bool)
    ensures
        r == line_in_section(linea@, seccion@),
{
    let mut pattern = seccion.to_owned();
    pattern.append(": ");
    starts_with(trim_start(linea), pattern.as_str())
}

/// The cheat-sheet lines to show: all of them, or with a section given,
/// those that belong to it, in their order.
pub fn filtrar_lineas(lineas: Vec<String>, seccion: Option<&str>) -> (r: Vec<String>)
    ensures
        string_views(r@) == match seccion {
            None => string_views(lineas@),
            Some(sec) => lines_in_section(string_views(lineas@), sec@),
        },
{
    match seccion {
        None => lineas,
        Some(sec) => {
            let mut r: Vec<String> = Vec::new();
            let mut i: usize = 0;
            while i < lineas.len()
                invariant
                    i <= lineas@.len(),
                    string_views(r@) == lines_in_section(string_views(lineas@).take(i as int), sec@),
                decreases lineas@.len() - i,
            {
                let ghost prev = r@;
                let ghost ls = string_views(lineas@);
                proof {
                    assert(ls.take(i + 1).drop_last() =~= ls.take(i as int));
                    assert(ls.take(i + 1).last() == lineas@[i as int]@);
                }
                if linea_en_seccion(lineas[i].as_str(), sec) {
                    let l = lineas[i].clone();
                    r.push(l);
                    proof {
                        assert(r@ =~= prev.push(l));
                        assert(string_views(r@) =~= string_views(prev).push(l@));
                    }
                }
                i += 1;
            }
            proof {
                assert(string_views(lineas@).take(lineas@.len() as int) =~= string_views(lineas@));
            }
            r
        },
    }
}

} // verus!
