//! The delimited-file reader: parse a file's content into a header-derived
//! column list and the remaining data lines. The header line is consumed
//! exactly once and never reappears as a data row.
//!
//! Fields are split naively on the separator: a quoted field that itself
//! contains the separator or a line break is split like any other text.

use vstd::prelude::*;

use crate::errors::ZsqlError;
use crate::sql_preproc::basename_spec;
use crate::text::{
    clean_field_spec, find_char_in, is_ws_char, lemma_split_from_len, lemma_trim_end_range,
    lemma_trim_start_range, split_from, ws_char,
};

verus! {

/// One trailing carriage return removed.
pub open spec fn strip_cr_spec(l: Seq<char>) -> Seq<char> {
    if l.len() > 0 && l.last() == '\r' {
        l.drop_last()
    } else {
        l
    }
}

/// The lines of a file's content: split on `'\n'`, one trailing `'\r'`
/// removed from each line, and no final empty line when the content ends
/// with a line break or is empty.
pub open spec fn lines_spec(s: Seq<char>) -> Seq<Seq<char>> {
    let parts = split_from(s, 0, '\n');
    let kept = if s.len() == 0 || s.last() == '\n' {
        parts.drop_last()
    } else {
        parts
    };
    kept.map_values(|l: Seq<char>| strip_cr_spec(l))
}

/// The fields of one line: split on the separator, each field trimmed of
/// surrounding whitespace and of one layer of surrounding double quotes.
pub open spec fn fields_spec(line: Seq<char>, sep: char) -> Seq<Seq<char>> {
    split_from(line, 0, sep).map_values(|f: Seq<char>| clean_field_spec(f))
}

/// One trailing carriage return removed.
fn strip_cr(line: &str) -> (r: String)
    ensures
        r@ == strip_cr_spec(line@),
{
    let n = line.unicode_len();
    if n > 0 && line.get_char(n - 1) == '\r' {
        proof {
            assert(line@.subrange(0, n - 1) =~= line@.drop_last());
        }
        line.substring_char(0, n - 1).to_owned()
    } else {
        line.to_owned()
    }
}

/// Split the content on `'\n'`, keeping empty lines except a final one.
pub fn split_lines(content: &str) -> (r: Vec<String>)
    ensures
        r@.len() == lines_spec(content@).len(),
        forall|i: int| 0 <= i < r@.len() ==> r@[i]@ == lines_spec(content@)[i],
{
    let n = content.unicode_len();
    let mut parts: Vec<String> = Vec::new();
    let mut pos: usize = 0;
    let mut done = false;
    while !done
        invariant
            pos <= n,
            n == content@.len(),
            !done ==> split_from(content@, 0, '\n') == parts@.map_values(|l: String| l@)
                + split_from(content@, pos as int, '\n'),
            done ==> split_from(content@, 0, '\n') == parts@.map_values(|l: String| l@),
            done ==> parts@.len() >= 1,
        decreases n - pos, (if done { 0int } else { 1int }),
    {
        let ghost parts0 = parts@;
        let ghost pos0 = pos as int;
        match find_char_in(content, pos, '\n') {
            Option::Some(j) => {
                parts.push(content.substring_char(pos, j).to_owned());
                proof {
                    assert(split_from(content@, pos0, '\n') == seq![content@.subrange(pos0, j as int)]
                        + split_from(content@, j + 1, '\n'));
                    assert(parts@.map_values(|l: String| l@) =~= parts0.map_values(|l: String| l@)
                        + seq![content@.subrange(pos0, j as int)]);
                    assert(split_from(content@, 0, '\n') =~= parts@.map_values(|l: String| l@)
                        + split_from(content@, j + 1, '\n'));
                }
                pos = j + 1;
            },
            Option::None => {
                parts.push(content.substring_char(pos, n).to_owned());
                proof {
                    assert(split_from(content@, pos0, '\n') == seq![content@.subrange(
                        pos0,
                        n as int,
                    )]);
                    assert(split_from(content@, 0, '\n') =~= parts@.map_values(|l: String| l@));
                }
                done = true;
            },
        }
    }
    let keep_all = if n == 0 {
        false
    } else {
        content.get_char(n - 1) != '\n'
    };
    if !keep_all {
        let _last = parts.pop();
    }
    let ghost kept = if content@.len() == 0 || content@.last() == '\n' {
        split_from(content@, 0, '\n').drop_last()
    } else {
        split_from(content@, 0, '\n')
    };
    proof {
        assert(parts@.map_values(|l: String| l@) =~= kept);
    }
    let mut out: Vec<String> = Vec::new();
    let mut i: usize = 0;
    while i < parts.len()
        invariant
            i <= parts@.len(),
            parts@.map_values(|l: String| l@) == kept,
            out@.len() == i,
            forall|m: int| 0 <= m < i ==> out@[m]@ == strip_cr_spec(kept[m]),
        decreases parts@.len() - i,
    {
        out.push(strip_cr(parts[i].as_str()));
        proof {
            assert(parts@.map_values(|l: String| l@)[i as int] == parts@[i as int]@);
        }
        i += 1;
    }
    proof {
        assert(forall|m: int| 0 <= m < kept.len() ==> lines_spec(content@)[m] == strip_cr_spec(
            kept[m],
        ));
    }
    out
}

/// Trim surrounding whitespace, then one layer of surrounding double quotes.
fn clean_field(field: &str) -> (r: String)
    ensures
        r@ == clean_field_spec(field@),
{
    let n = field.unicode_len();
    let mut a: usize = 0;
    while a < n && ws_char(field.get_char(a))
        invariant
            a <= n,
            n == field@.len(),
            forall|m: int| 0 <= m < a ==> is_ws_char(field@[m]),
        decreases n - a,
    {
        a += 1;
    }
    let mut b: usize = n;
    while b > a && ws_char(field.get_char(b - 1))
        invariant
            a <= b <= n,
            n == field@.len(),
            forall|m: int| b <= m < n ==> is_ws_char(field@[m]),
        decreases b,
    {
        b -= 1;
    }
    proof {
        lemma_trim_start_range(field@, a as int);
        lemma_trim_end_range(field@.subrange(a as int, n as int), b as int - a as int);
        assert(field@.subrange(a as int, n as int).subrange(0, b as int - a as int)
            =~= field@.subrange(a as int, b as int));
        assert(crate::text::trim_end_spec(crate::text::trim_start_spec(field@)) == field@.subrange(
            a as int,
            b as int,
        ));
    }
    let unq = b - a >= 2 && field.get_char(a) == '"' && field.get_char(b - 1) == '"';
    let s: usize = if unq {
        a + 1
    } else {
        a
    };
    let e: usize = if unq {
        b - 1
    } else {
        b
    };
    proof {
        let t = field@.subrange(a as int, b as int);
        if unq {
            assert(t[0] == '"' && t.last() == '"');
            assert(t.subrange(1, t.len() - 1) =~= field@.subrange(s as int, e as int));
        }
        assert(clean_field_spec(field@) == field@.subrange(s as int, e as int));
    }
    field.substring_char(s, e).to_owned()
}

/// Split one line into its fields and clean each one.
pub fn split_fields(line: &str, sep: char) -> (r: Vec<String>)
    ensures
        r@.len() == fields_spec(line@, sep).len(),
        forall|i: int| 0 <= i < r@.len() ==> r@[i]@ == fields_spec(line@, sep)[i],
        r@.len() >= 1,
{
    let ghost raw = split_from(line@, 0, sep);
    let n = line.unicode_len();
    let mut fields: Vec<String> = Vec::new();
    let mut pos: usize = 0;
    let mut done = false;
    while !done
        invariant
            pos <= n,
            n == line@.len(),
            raw == split_from(line@, 0, sep),
            fields@.len() <= raw.len(),
            !done ==> raw =~= raw.take(fields@.len() as int) + split_from(line@, pos as int, sep),
            done ==> fields@.len() == raw.len(),
            forall|m: int| 0 <= m < fields@.len() ==> fields@[m]@ == clean_field_spec(raw[m]),
        decreases n - pos, (if done { 0int } else { 1int }),
    {
        let ghost k = fields@.len() as int;
        let ghost pos0 = pos as int;
        match find_char_in(line, pos, sep) {
            Option::Some(j) => {
                proof {
                    assert(split_from(line@, pos0, sep) == seq![line@.subrange(pos0, j as int)]
                        + split_from(line@, j + 1, sep));
                    assert(raw[k] == line@.subrange(pos0, j as int));
                    assert(raw =~= raw.take(k + 1) + split_from(line@, j + 1, sep));
                }
                fields.push(clean_field(line.substring_char(pos, j)));
                pos = j + 1;
            },
            Option::None => {
                proof {
                    assert(split_from(line@, pos0, sep) == seq![line@.subrange(pos0, n as int)]);
                    assert(raw[k] == line@.subrange(pos0, n as int));
                    assert(raw.len() == k + 1);
                }
                fields.push(clean_field(line.substring_char(pos, n)));
                done = true;
            },
        }
    }
    proof {
        assert(fields_spec(line@, sep).len() == raw.len());
        lemma_split_from_len(line@, 0, sep);
    }
    fields
}

/// One opened delimited file: the referenced path's base name, the
/// header-derived column list, and the remaining content as data lines.
#[derive(Debug)]
pub struct Csv {
    /// Base file name of the path, extension kept.
    pub filename: String,
    /// Header fields, order preserved, duplicates permitted.
    pub columns: Vec<String>,
    /// The data lines, in file order, the header already consumed.
    pub lines: Vec<String>,
}

impl Csv {
    /// The data rows as raw text lines, the header excluded.
    pub open spec fn rows(self) -> Seq<Seq<char>> {
        self.lines@.map_values(|l: String| l@)
    }

    /// This value is exactly the parse of `text`, a file read from
    /// `filepath` and split on `sep`: the first line is the header, every
    /// later line a data row, and the header never reappears among the rows.
    pub open spec fn parsed_from(self, filepath: Seq<char>, text: Seq<char>, sep: char) -> bool {
        &&& lines_spec(text).len() >= 1
        &&& self.filename@ == basename_spec(filepath)
        &&& self.columns@.len() == fields_spec(lines_spec(text)[0], sep).len()
        &&& forall|i: int|
            0 <= i < self.columns@.len() ==> self.columns@[i]@ == fields_spec(
                lines_spec(text)[0],
                sep,
            )[i]
        &&& self.rows().len() == lines_spec(text).len() - 1
        &&& forall|i: int| 0 <= i < self.rows().len() ==> self.rows()[i] == lines_spec(text)[i + 1]
    }

    /// Parse one file, splitting fields on `separator`. `content` is the
    /// file's full text, or `None` when the path could not be opened; a file
    /// with no readable line is rejected.
    pub fn new(filepath: &str, content: &Option<String>, separator: char) -> (r: Result<
        Csv,
        ZsqlError,
    >)
        ensures
            match r {
                Result::Ok(c) => content matches Some(text) && c.parsed_from(
                    filepath@,
                    text@,
                    separator,
                ),
                Result::Err(e) => match e {
                    ZsqlError::FileNotFound { path } => content is None && path@ == filepath@,
                    ZsqlError::EmptyOrUnreadable { path } => (content matches Some(text) && lines_spec(
                        text@,
                    ).len() == 0) && path@ == filepath@,
                    ZsqlError::Engine { .. } => false,
                },
            },
    {
        let text = match content {
            Option::Some(t) => t,
            Option::None => {
                return Result::Err(ZsqlError::FileNotFound { path: filepath.to_owned() });
            },
        };
        let all = split_lines(text.as_str());
        if all.len() == 0 {
            return Result::Err(ZsqlError::EmptyOrUnreadable { path: filepath.to_owned() });
        }
        let columns = split_fields(all[0].as_str(), separator);
        let mut lines: Vec<String> = Vec::new();
        let mut i: usize = 1;
        while i < all.len()
            invariant
                1 <= i <= all@.len(),
                lines@.len() == i - 1,
                forall|m: int| 0 <= m < lines@.len() ==> lines@[m]@ == all@[m + 1]@,
            decreases all@.len() - i,
        {
            lines.push(all[i].clone());
            i += 1;
        }
        let bs = crate::sql_preproc::basename_start(filepath);
        let filename = filepath.substring_char(bs, filepath.unicode_len()).to_owned();
        let c = Csv { filename, columns, lines };
        proof {
            assert(c.filename@ == basename_spec(filepath@));
            assert(forall|m: int|
                0 <= m < c.rows().len() ==> c.rows()[m] == lines_spec(text@)[m + 1]);
        }
        Result::Ok(c)
    }

    /// The data lines, in file order; the header line is not among them.
    pub fn lines(&self) -> (r: &Vec<String>)
        ensures
            r@.len() == self.rows().len(),
            forall|i: int| 0 <= i < r@.len() ==> r@[i]@ == self.rows()[i],
    {
        &self.lines
    }
}

/// Keeps every file opened during one invocation.
pub struct CsvLoader {
    pub csvs: Vec<Csv>,
}

impl CsvLoader {
    /// An empty loader.
    pub fn new() -> (r: CsvLoader)
        ensures
            r.csvs@.len() == 0,
    {
        CsvLoader { csvs: Vec::new() }
    }

    /// Parse one file and keep it; on failure the loader is unchanged.
    pub fn load(&mut self, filepath: &str, content: &Option<String>, separator: char) -> (r: Result<
        &Csv,
        ZsqlError,
    >)
        ensures
            match r {
                Result::Ok(c) => {
                    &&& content matches Some(text) && c.parsed_from(filepath@, text@, separator)
                    &&& final(self).csvs@ == old(self).csvs@.push(*c)
                },
                Result::Err(e) => {
                    &&& final(self).csvs@ == old(self).csvs@
                    &&& match e {
                        ZsqlError::FileNotFound { path } => content is None && path@ == filepath@,
                        ZsqlError::EmptyOrUnreadable { path } => (content matches Some(text)
                            && lines_spec(text@).len() == 0) && path@ == filepath@,
                        ZsqlError::Engine { .. } => false,
                    }
                },
            },
    {
        let new_csv = match Csv::new(filepath, content, separator) {
            Result::Ok(c) => c,
            Result::Err(e) => {
                return Result::Err(e);
            },
        };
        self.csvs.push(new_csv);
        let idx = self.csvs.len() - 1;
        Result::Ok(&self.csvs[idx])
    }
}

} // verus!
