//! The knowledge base's records, and the parser of `nm` symbol tables.
//!
//! `nm` prints `address kind name` lines, or `address size kind name` with
//! `--print-size`; undefined symbols (blank address), headers and anything
//! else that does not parse are skipped.
use vstd::prelude::*;
use crate::num::{from_str_radix, parse_u32_radix};
use crate::text::{chars_of, cviews, lines, lines_of, string_from, string_of, words, words_of};

verus! {

/// A ROM to register: identified by its hash.
#[derive(Debug, Clone)]
pub struct RomInfo {
    pub hash: String,
    pub title: Option<String>,
    pub platform: String,
    pub region: Option<String>,
}

/// A registered ROM, with the id the store gave it.
#[derive(Debug, Clone)]
pub struct RomRecord {
    pub id: i64,
    pub hash: String,
    pub title: Option<String>,
    pub platform: String,
    pub region: Option<String>,
}

/// A symbol extracted from an ELF via nm.
#[derive(Debug, Clone)]
pub struct Symbol {
    /// Virtual address.
    pub address: u32,
    /// Size in bytes (available with `nm --print-size`).
    pub size: Option<u32>,
    /// nm type character: T/t (text), D/d (data), B/b (bss), etc.
    pub kind: String,
    /// Demangled symbol name.
    pub name: String,
    /// Provenance tag: "decomp", "user", "validated".
    pub source: String,
}

/// The value of a symbol.
pub struct SymbolView {
    pub address: u32,
    pub size: Option<u32>,
    pub kind: Seq<char>,
    pub name: Seq<char>,
    pub source: Seq<char>,
}

impl View for Symbol {
    type V = SymbolView;

    open spec fn view(&self) -> SymbolView {
        SymbolView {
            address: self.address,
            size: self.size,
            kind: self.kind@,
            name: self.name@,
            source: self.source@,
        }
    }
}

impl Symbol {
    /// A symbol taken from the decompilation's symbol table.
    pub fn from_decomp(address: u32, size: Option<u32>, kind: &str, name: &str) -> (r: Self)
        ensures
            r@ == (SymbolView { address, size, kind: kind@, name: name@, source: "decomp"@ }),
    {
        Symbol {
            address,
            size,
            kind: string_from(kind),
            name: string_from(name),
            source: string_from("decomp"),
        }
    }
}

/// A note attached to an address.
#[derive(Debug, Clone)]
pub struct Annotation {
    pub address: u32,
    pub description: String,
    pub validated: bool,
    pub source: String,
}

/// The symbol one line of nm output defines, if any.
pub open spec fn nm_line_symbol(line: Seq<char>) -> Option<SymbolView> {
    let w = words(line);
    if w.len() == 3 {
        match from_str_radix(w[0], 16) {
            Ok(address) => Some(
                SymbolView { address, size: None, kind: w[1], name: w[2], source: "decomp"@ },
            ),
            Err(_) => None,
        }
    } else if w.len() == 4 {
        match from_str_radix(w[0], 16) {
            Ok(address) => Some(
                SymbolView {
                    address,
                    size: match from_str_radix(w[1], 16) {
                        Ok(s) => Some(s),
                        Err(_) => None,
                    },
                    kind: w[2],
                    name: w[3],
                    source: "decomp"@,
                },
            ),
            Err(_) => None,
        }
    } else {
        None
    }
}

/// The symbols that lines of nm output define, in order.
pub open spec fn nm_symbols(ls: Seq<Seq<char>>) -> Seq<SymbolView>
    decreases ls.len(),
{
    if ls.len() == 0 {
        seq![]
    } else {
        let prev = nm_symbols(ls.drop_last());
        match nm_line_symbol(ls.last()) {
            Some(s) => prev.push(s),
            None => prev,
        }
    }
}

/// The values of a sequence of symbols.
pub open spec fn symbol_views(v: Seq<Symbol>) -> Seq<SymbolView> {
    v.map_values(|s: Symbol| s@)
}

fn parse_line(line: &Vec<char>) -> (r: Option<Symbol>)
    ensures
        match r {
            Some(s) => nm_line_symbol(line@) == Some(s@),
            None => nm_line_symbol(line@) is None,
        },
{
    let parts = words_of(line);
    if parts.len() == 3 {
        let address = match parse_u32_radix(&parts[0], 16) {
            Ok(a) => a,
            Err(_) => return None,
        };
        Some(
            Symbol {
                address,
                size: None,
                kind: string_of(&parts[1]),
                name: string_of(&parts[2]),
                source: string_from("decomp"),
            },
        )
    } else if parts.len() == 4 {
        let address = match parse_u32_radix(&parts[0], 16) {
            Ok(a) => a,
            Err(_) => return None,
        };
        let size = match parse_u32_radix(&parts[1], 16) {
            Ok(s) => Some(s),
            Err(_) => None,
        };
        Some(
            Symbol {
                address,
                size,
                kind: string_of(&parts[2]),
                name: string_of(&parts[3]),
                source: string_from("decomp"),
            },
        )
    } else {
        None
    }
}

/// Parses the stdout of `arm-none-eabi-nm [--print-size] [--numeric-sort]`;
/// only defined symbols with a valid hex address are returned, in order.
pub fn parse_nm_output(output: &str) -> (r: Vec<Symbol>)
    ensures
        symbol_views(r@) == nm_symbols(lines(output@)),
{
    let text = chars_of(output);
    let ls = lines_of(&text);
    let mut syms: Vec<Symbol> = Vec::new();
    let mut i: usize = 0;
    while i < ls.len()
        invariant
            i <= ls.len(),
            cviews(ls@) == lines(output@),
            symbol_views(syms@) == nm_symbols(cviews(ls@).take(i as int)),
        decreases ls.len() - i,
    {
        assert(cviews(ls@).take(i + 1).drop_last() =~= cviews(ls@).take(i as int));
        assert(cviews(ls@).take(i + 1).last() == ls@[i as int]@);
        let ghost before = symbol_views(syms@);
        match parse_line(&ls[i]) {
            Some(s) => {
                let ghost sv = s@;
                syms.push(s);
                assert(symbol_views(syms@) =~= before.push(sv));
            },
            None => {},
        }
        i += 1;
    }
    assert(cviews(ls@).take(ls.len() as int) =~= cviews(ls@));
    syms
}

/// Every symbol read from nm output is tagged as coming from the
/// decompilation, and a line with fewer than three words (an undefined
/// symbol, a header, a blank line) defines none.
pub proof fn lemma_nm_symbols_shape(ls: Seq<Seq<char>>)
    ensures
        forall|i: int| 0 <= i < nm_symbols(ls).len() ==> #[trigger] nm_symbols(ls)[i].source == "decomp"@,
        nm_symbols(ls).len() <= ls.len(),
        forall|l: Seq<char>| words(l).len() < 3 ==> #[trigger] nm_line_symbol(l) is None,
    decreases ls.len(),
{
    if ls.len() > 0 {
        lemma_nm_symbols_shape(ls.drop_last());
        let prev = nm_symbols(ls.drop_last());
        assert forall|i: int| 0 <= i < nm_symbols(ls).len() implies #[trigger] nm_symbols(ls)[i].source == "decomp"@ by {
            if i < prev.len() {
                assert(nm_symbols(ls)[i] == prev[i]);
            }
        }
    }
}

} // verus!
