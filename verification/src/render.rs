//! Rendering a built tree as an indented textual report.
//!
//! The rendering walks the tree depth-first and pre-order: one header line
//! per directory, then one line per file one level deeper, then each
//! subdirectory's full rendering in list order. Every line is prefixed
//! with one space per level of nesting, followed by a backslash and a
//! dash. Absorbed failures are carried in the tree but not rendered.

use vstd::prelude::*;
use vstd::string::StringExecFns;
use crate::tree::{Dir, File, depth, lemma_dirs_depth_elem};

verus! {

/// The decimal digit character for one value below ten.
pub open spec fn digit_char(d: nat) -> char {
    if d == 0 {
        '0'
    } else if d == 1 {
        '1'
    } else if d == 2 {
        '2'
    } else if d == 3 {
        '3'
    } else if d == 4 {
        '4'
    } else if d == 5 {
        '5'
    } else if d == 6 {
        '6'
    } else if d == 7 {
        '7'
    } else if d == 8 {
        '8'
    } else {
        '9'
    }
}

/// The decimal numeral of a value, most significant digit first.
pub open spec fn dec_str(n: nat) -> Seq<char>
    decreases n,
{
    if n < 10 {
        seq![digit_char(n)]
    } else {
        dec_str(n / 10).push(digit_char(n % 10))
    }
}

/// The indentation marker for one level: one space per level beyond the
/// first, then a backslash and a dash.
pub open spec fn offset_seq(level: nat) -> Seq<char>
    recommends
        level >= 1,
{
    Seq::new((level - 1) as nat, |i: int| ' ').push('\\').push('-')
}

/// The text rendered for one file: its name, a tab, its size, " bytes".
pub open spec fn file_text(name: Seq<char>, size: u64) -> Seq<char> {
    name + seq!['\t'] + dec_str(size as nat) + seq![' ', 'b', 'y', 't', 'e', 's']
}

/// The one-line summary of a directory: its name, its size, " bytes".
pub open spec fn dir_text(name: Seq<char>, size: u64) -> Seq<char> {
    name + dec_str(size as nat) + seq![' ', 'b', 'y', 't', 'e', 's']
}

/// A directory's header line: indentation, name, size, a colon.
pub open spec fn header_text(d: Dir, level: nat) -> Seq<char> {
    offset_seq(level) + d.name@ + dec_str(d.size as nat) + seq![':', '\n']
}

/// The line rendered for one file at one indent level.
pub open spec fn file_line(f: File, level: nat) -> Seq<char> {
    offset_seq(level) + file_text(f.name@, f.size) + seq!['\n']
}

/// The lines rendered for a run of files, in order.
pub open spec fn files_block(fs: Seq<File>, level: nat) -> Seq<char>
    decreases fs.len(),
{
    if fs.len() == 0 {
        Seq::empty()
    } else {
        files_block(fs.drop_last(), level) + file_line(fs.last(), level)
    }
}

/// The full rendering of a node: its header, then its files one level
/// deeper, then each subdirectory's rendering in list order.
pub open spec fn rendering(d: Dir, level: nat) -> Seq<char>
    decreases d, 1int,
{
    header_text(d, level) + files_block(d.files@, level + 1) + subdirs_rendering(d.dirs@, level + 1)
}

/// The concatenated renderings of a run of directories, in order.
pub open spec fn subdirs_rendering(ds: Seq<Dir>, level: nat) -> Seq<char>
    decreases ds, 0int,
{
    if ds.len() == 0 {
        Seq::empty()
    } else {
        subdirs_rendering(ds.drop_last(), level) + rendering(ds.last(), level)
    }
}

/// The one-character text of one decimal digit.
fn digit_str(d: u64) -> (r: &'static str)
    requires
        d < 10,
    ensures
        r@ == seq![digit_char(d as nat)],
{
    if d == 0 {
        proof { reveal_strlit("0"); assert("0"@ =~= seq![digit_char(0)]); }
        "0"
    } else if d == 1 {
        proof { reveal_strlit("1"); assert("1"@ =~= seq![digit_char(1)]); }
        "1"
    } else if d == 2 {
        proof { reveal_strlit("2"); assert("2"@ =~= seq![digit_char(2)]); }
        "2"
    } else if d == 3 {
        proof { reveal_strlit("3"); assert("3"@ =~= seq![digit_char(3)]); }
        "3"
    } else if d == 4 {
        proof { reveal_strlit("4"); assert("4"@ =~= seq![digit_char(4)]); }
        "4"
    } else if d == 5 {
        proof { reveal_strlit("5"); assert("5"@ =~= seq![digit_char(5)]); }
        "5"
    } else if d == 6 {
        proof { reveal_strlit("6"); assert("6"@ =~= seq![digit_char(6)]); }
        "6"
    } else if d == 7 {
        proof { reveal_strlit("7"); assert("7"@ =~= seq![digit_char(7)]); }
        "7"
    } else if d == 8 {
        proof { reveal_strlit("8"); assert("8"@ =~= seq![digit_char(8)]); }
        "8"
    } else {
        proof { reveal_strlit("9"); assert("9"@ =~= seq![digit_char(9)]); }
        "9"
    }
}

/// Appends the decimal numeral of `n` to a string under construction.
fn push_decimal(n: u64, out: &mut String)
    ensures
        final(out)@ == old(out)@ + dec_str(n as nat),
    decreases n,
{
    if n >= 10 {
        push_decimal(n / 10, out);
        let d = digit_str(n % 10);
        out.append(d);
        proof {
            assert(out@ =~= old(out)@ + dec_str(n as nat));
        }
    } else {
        let d = digit_str(n);
        out.append(d);
        proof {
            assert(out@ =~= old(out)@ + dec_str(n as nat));
        }
    }
}

impl File {
    /// The text rendered for this file: name, a tab, the size, " bytes".
    pub fn to_string(&self) -> (r: String)
        ensures
            r@ == file_text(self.name@, self.size),
    {
        let mut res = self.name.clone();
        res.append("\t");
        push_decimal(self.size, &mut res);
        res.append(" bytes");
        proof {
            reveal_strlit("\t");
            reveal_strlit(" bytes");
            assert(res@ =~= file_text(self.name@, self.size));
        }
        res
    }
}

impl Dir {
    /// The one-line summary of this directory: name, size, " bytes".
    pub fn to_string(&self) -> (r: String)
        ensures
            r@ == dir_text(self.name@, self.size),
    {
        let mut res = self.name.clone();
        push_decimal(self.size, &mut res);
        res.append(" bytes");
        proof {
            reveal_strlit(" bytes");
            assert(res@ =~= dir_text(self.name@, self.size));
        }
        res
    }

    /// The rendered report for the whole tree, starting at the first
    /// indent level.
    pub fn print(&self) -> (r: String)
        requires
            1 + depth(*self) <= u32::MAX as nat,
        ensures
            r@ == rendering(*self, 1),
    {
        self.print_with_level(1)
    }

    /// The rendered report for this node at the given indent level: its
    /// header line, its files one level deeper, then its subdirectories.
    #[verifier::loop_isolation(false)]
    pub fn print_with_level(&self, level: u32) -> (r: String)
        requires
            1 <= level,
            level as nat + depth(*self) <= u32::MAX as nat,
        ensures
            r@ == rendering(*self, level as nat),
        decreases *self,
    {
        let mut res = String::new();
        Dir::add_level_offset(level, &mut res);
        res.append(self.name.as_str());
        push_decimal(self.size, &mut res);
        res.append(":\n");
        proof {
            reveal_strlit(":\n");
            assert(res@ =~= header_text(*self, level as nat));
        }
        let ghost head = res@;
        let next = level + 1;
        let mut k: usize = 0;
        while k < self.files.len()
            invariant
                k <= self.files@.len(),
                res@ == head + files_block(self.files@.subrange(0, k as int), next as nat),
            decreases self.files@.len() - k,
        {
            proof {
                assert(self.files@.subrange(0, k as int + 1).drop_last()
                    =~= self.files@.subrange(0, k as int));
                assert(self.files@.subrange(0, k as int + 1).last() == self.files@[k as int]);
            }
            Dir::add_level_offset(next, &mut res);
            let ft = self.files[k].to_string();
            res.append(ft.as_str());
            res.append("\n");
            proof {
                reveal_strlit("\n");
                assert(res@ =~= head + files_block(self.files@.subrange(0, k as int + 1), next as nat));
            }
            k = k + 1;
        }
        proof {
            assert(self.files@.subrange(0, self.files@.len() as int) =~= self.files@);
        }
        let ghost head_files = res@;
        let mut j: usize = 0;
        while j < self.dirs.len()
            invariant
                j <= self.dirs@.len(),
                res@ == head_files + subdirs_rendering(self.dirs@.subrange(0, j as int), next as nat),
            decreases self.dirs@.len() - j,
        {
            proof {
                assert(self.dirs@.subrange(0, j as int + 1).drop_last()
                    =~= self.dirs@.subrange(0, j as int));
                assert(self.dirs@.subrange(0, j as int + 1).last() == self.dirs@[j as int]);
                lemma_dirs_depth_elem(self.dirs@, j as int);
                assert(decreases_to!(*self => self.dirs));
                assert(decreases_to!(self.dirs@ => self.dirs@[j as int]));
                assert(decreases_to!(*self => self.dirs@[j as int]));
            }
            let sub = self.dirs[j].print_with_level(next);
            res.append(sub.as_str());
            proof {
                assert(res@ =~= head_files + subdirs_rendering(self.dirs@.subrange(0, j as int + 1), next as nat));
            }
            j = j + 1;
        }
        proof {
            assert(self.dirs@.subrange(0, self.dirs@.len() as int) =~= self.dirs@);
            assert(res@ =~= rendering(*self, level as nat));
        }
        res
    }

    /// Appends the indentation marker for one level: one space per level
    /// beyond the first, then a backslash and a dash.
    #[verifier::loop_isolation(false)]
    pub fn add_level_offset(level: u32, res: &mut String)
        requires
            level >= 1,
        ensures
            final(res)@ == old(res)@ + offset_seq(level as nat),
    {
        let mut i: u32 = 0;
        proof {
            assert(res@ =~= old(res)@ + Seq::new(0, |k: int| ' '));
        }
        while i < level - 1
            invariant
                i <= level - 1,
                res@ == old(res)@ + Seq::new(i as nat, |k: int| ' '),
            decreases level - 1 - i,
        {
            res.append(" ");
            proof {
                reveal_strlit(" ");
                assert(res@ =~= old(res)@ + Seq::new(i as nat + 1, |k: int| ' '));
            }
            i = i + 1;
        }
        res.append("\\-");
        proof {
            reveal_strlit("\\-");
            assert(res@ =~= old(res)@ + offset_seq(level as nat));
        }
    }
}

} // verus!
