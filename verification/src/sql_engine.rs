//! The ingestion engine and query executor: load each referenced file into
//! the relational store (one table per file, one transaction per load) and
//! run the rewritten query, formatting each result row as one text line.
//!
//! Row values are routed through the store's bound parameters, never spliced
//! into statement text.

use vstd::prelude::*;

use crate::csv_loader::{fields_spec, lines_spec, split_fields, CsvLoader};
use crate::errors::ZsqlError;
use crate::sql_preproc::{derive_name, derived_name_spec};
use crate::store::{fetch_rows, open_memory_store, run_stmt, store_error_text};
use crate::text::join_from;

verus! {

/// One input file for a load: the path as it stood in the query, and the
/// file's full text, or `None` when the path could not be opened.
pub struct FileSource {
    pub path: String,
    pub content: Option<String>,
}

/// One result row joined with commas and terminated by a line break.
pub open spec fn row_line_spec(cells: Seq<Seq<char>>) -> Seq<char> {
    join_from(cells, 0, ","@) + "\n"@
}

/// The text is the formatted line of some row.
pub open spec fn is_row_line(l: Seq<char>) -> bool {
    exists|cells: Seq<Seq<char>>| l == row_line_spec(cells)
}

/// Every formatted row line ends with the line terminator, and holds nothing
/// after it: a result of `n` rows yields output with exactly `n` terminators
/// and no trailing blank line.
pub proof fn lemma_row_line_terminated(cells: Seq<Seq<char>>)
    ensures
        row_line_spec(cells).len() >= 1,
        row_line_spec(cells).last() == '\n',
{
    reveal_strlit("\n");
}

/// The table-creation statement: the derived table name, one text-typed
/// column per header entry, in header order.
pub open spec fn create_stmt_spec(name: Seq<char>, cols: Seq<Seq<char>>) -> Seq<char> {
    "CREATE TABLE "@ + name + " ("@ + join_from(
        cols.map_values(|c: Seq<char>| c + " TEXT"@),
        0,
        ","@,
    ) + ")"@
}

/// `n` placeholders separated by commas.
pub open spec fn placeholders_spec(n: int) -> Seq<char>
    decreases n,
{
    if n <= 0 {
        Seq::empty()
    } else if n == 1 {
        "?"@
    } else {
        "?,"@ + placeholders_spec(n - 1)
    }
}

/// The row-insert statement: one `?` placeholder per cell, values bound
/// separately.
pub open spec fn insert_stmt_spec(name: Seq<char>, n: int) -> Seq<char> {
    "INSERT INTO "@ + name + " VALUES ("@ + placeholders_spec(n) + ")"@
}

/// One request handed to the relational store: the statement text and the
/// values bound to its placeholders, in order.
pub ghost struct StoreRequest {
    pub stmt: Seq<char>,
    pub values: Seq<Seq<char>>,
}

/// The text of a source file, empty when none could be read.
pub open spec fn source_text(f: FileSource) -> Seq<char> {
    match f.content {
        Option::Some(t) => t@,
        Option::None => Seq::empty(),
    }
}

/// The requests that loading one file hands to the store: its
/// table-creation statement, a transaction begin, one insert per data row
/// with the row's cells bound in column order, and the commit.
pub open spec fn file_requests(f: FileSource, sep: char) -> Seq<StoreRequest> {
    let name = derived_name_spec(f.path@);
    let cols = fields_spec(lines_spec(source_text(f))[0], sep);
    let rows = lines_spec(source_text(f)).drop_first();
    seq![
        StoreRequest { stmt: create_stmt_spec(name, cols), values: Seq::empty() },
        StoreRequest { stmt: "BEGIN"@, values: Seq::empty() },
    ] + rows.map_values(
        |l: Seq<char>|
            StoreRequest {
                stmt: insert_stmt_spec(name, fields_spec(l, sep).len() as int),
                values: fields_spec(l, sep),
            },
    ) + seq![StoreRequest { stmt: "COMMIT"@, values: Seq::empty() }]
}

/// The requests that a whole load hands to the store, file by file, from
/// index `i` on.
pub open spec fn load_requests_from(files: Seq<FileSource>, i: int, sep: char) -> Seq<StoreRequest>
    decreases files.len() - i,
    when 0 <= i
{
    if i >= files.len() {
        Seq::empty()
    } else {
        file_requests(files[i], sep) + load_requests_from(files, i + 1, sep)
    }
}

/// Build the table-creation statement text.
fn build_create_statement(name: &str, columns: &Vec<String>) -> (r: String)
    ensures
        r@ == create_stmt_spec(name@, columns@.map_values(|c: String| c@)),
{
    let ghost pieces = columns@.map_values(|c: String| c@).map_values(
        |c: Seq<char>| c + " TEXT"@,
    );
    let mut s = "CREATE TABLE ".to_owned();
    s.append(name);
    s.append(" (");
    let ghost base = s@;
    proof {
        assert(s@ + join_from(pieces, 0, ","@) =~= base + join_from(pieces, 0, ","@));
    }
    let mut i: usize = 0;
    while i < columns.len()
        invariant
            i <= columns@.len(),
            pieces == columns@.map_values(|c: String| c@).map_values(
                |c: Seq<char>| c + " TEXT"@,
            ),
            i < columns@.len() ==> s@ + join_from(pieces, i as int, ","@) == base + join_from(
                pieces,
                0,
                ","@,
            ),
            i == columns@.len() ==> s@ == base + join_from(pieces, 0, ","@),
        decreases columns@.len() - i,
    {
        let ghost s0 = s@;
        s.append(columns[i].as_str());
        s.append(" TEXT");
        proof {
            assert(pieces[i as int] == columns@[i as int]@ + " TEXT"@);
            assert(s@ =~= s0 + pieces[i as int]);
        }
        if i + 1 < columns.len() {
            s.append(",");
            proof {
                assert(join_from(pieces, i as int, ","@) == pieces[i as int] + ","@ + join_from(
                    pieces,
                    i + 1,
                    ","@,
                ));
                assert(s@ + join_from(pieces, i + 1, ","@) =~= s0 + join_from(
                    pieces,
                    i as int,
                    ","@,
                ));
            }
        } else {
            proof {
                assert(join_from(pieces, i as int, ","@) == pieces[i as int]);
                assert(s@ =~= s0 + join_from(pieces, i as int, ","@));
            }
        }
        i += 1;
    }
    proof {
        if columns@.len() == 0 {
            assert(join_from(pieces, 0, ","@) == Seq::<char>::empty());
            assert(s@ =~= base + join_from(pieces, 0, ","@));
        }
    }
    s.append(")");
    proof {
        assert(s@ =~= create_stmt_spec(name@, columns@.map_values(|c: String| c@)));
    }
    s
}

/// Build the row-insert statement text for one row's arity.
fn build_insert_statement(name: &str, arity: usize) -> (r: String)
    ensures
        r@ == insert_stmt_spec(name@, arity as int),
{
    let mut s = "INSERT INTO ".to_owned();
    s.append(name);
    s.append(" VALUES (");
    let ghost base = s@;
    let mut k: usize = arity;
    while k > 0
        invariant
            k <= arity,
            s@ + placeholders_spec(k as int) == base + placeholders_spec(arity as int),
        decreases k,
    {
        let ghost s0 = s@;
        if k == 1 {
            s.append("?");
        } else {
            s.append("?,");
        }
        proof {
            assert(s@ + placeholders_spec(k - 1) =~= s0 + placeholders_spec(k as int));
        }
        k -= 1;
    }
    s.append(")");
    proof {
        assert(s@ =~= insert_stmt_spec(name@, arity as int));
    }
    s
}

/// Join one row's cells with commas and terminate with a line break.
pub fn format_row(cells: &Vec<String>) -> (r: String)
    ensures
        r@ == row_line_spec(cells@.map_values(|c: String| c@)),
{
    let ghost cs = cells@.map_values(|c: String| c@);
    let mut s = String::new();
    proof {
        assert(s@ + join_from(cs, 0, ","@) =~= join_from(cs, 0, ","@));
    }
    let mut i: usize = 0;
    while i < cells.len()
        invariant
            i <= cells@.len(),
            cs == cells@.map_values(|c: String| c@),
            i < cells@.len() ==> s@ + join_from(cs, i as int, ","@) == join_from(cs, 0, ","@),
            i == cells@.len() ==> s@ == join_from(cs, 0, ","@),
        decreases cells@.len() - i,
    {
        let ghost s0 = s@;
        s.append(cells[i].as_str());
        if i + 1 < cells.len() {
            s.append(",");
            proof {
                assert(join_from(cs, i as int, ","@) == cs[i as int] + ","@ + join_from(
                    cs,
                    i + 1,
                    ","@,
                ));
                assert(s@ + join_from(cs, i + 1, ","@) =~= s0 + join_from(cs, i as int, ","@));
            }
        } else {
            proof {
                assert(join_from(cs, i as int, ","@) == cs[i as int]);
                assert(s@ =~= s0 + join_from(cs, i as int, ","@));
            }
        }
        i += 1;
    }
    proof {
        if cells@.len() == 0 {
            assert(s@ =~= join_from(cs, 0, ","@));
        }
    }
    s.append("\n");
    s
}

/// One output line per result row, each comma-joined and terminated by a
/// line break: exactly as many lines as rows, in the store's order.
pub fn format_rows(rows: &Vec<Vec<String>>) -> (r: Vec<String>)
    ensures
        r@.len() == rows@.len(),
        forall|i: int|
            0 <= i < r@.len() ==> r@[i]@ == row_line_spec(
                rows@[i]@.map_values(|c: String| c@),
            ),
{
    let mut out: Vec<String> = Vec::new();
    let mut i: usize = 0;
    while i < rows.len()
        invariant
            i <= rows@.len(),
            out@.len() == i,
            forall|m: int|
                0 <= m < i ==> out@[m]@ == row_line_spec(rows@[m]@.map_values(|c: String| c@)),
        decreases rows@.len() - i,
    {
        out.push(format_row(&rows[i]));
        i += 1;
    }
    out
}

/// The relational store with the files loaded so far. The store itself is
/// external; everything handed to it is built and checked here.
pub struct SqlEngine {
    conn: rusqlite::Connection,
    csv_loader: CsvLoader,
    separator: char,
    issued: Ghost<Seq<StoreRequest>>,
}

impl SqlEngine {
    /// How many files have been loaded into the store.
    pub closed spec fn files_loaded(self) -> nat {
        self.csv_loader.csvs@.len()
    }

    /// The field separator every load splits on.
    pub closed spec fn sep(self) -> char {
        self.separator
    }

    /// Every request handed to the store so far, in order.
    pub closed spec fn requests(self) -> Seq<StoreRequest> {
        self.issued@
    }

    /// Open a fresh in-memory store holding no tables; every file loaded
    /// later is split on `separator`.
    pub fn new(separator: char) -> (r: Result<SqlEngine, ZsqlError>)
        ensures
            r matches Ok(en) ==> en.files_loaded() == 0 && en.sep() == separator && en.requests()
                == Seq::<StoreRequest>::empty(),
            r matches Err(e) ==> e matches ZsqlError::Engine { .. },
    {
        match open_memory_store() {
            Result::Ok(conn) => Result::Ok(
                SqlEngine {
                    conn,
                    csv_loader: CsvLoader::new(),
                    separator,
                    issued: Ghost(Seq::empty()),
                },
            ),
            Result::Err(e) => Result::Err(ZsqlError::Engine { message: store_error_text(&e) }),
        }
    }

    /// Load every file, in the given order: parse it, create its table (one
    /// text-typed column per header entry), then insert its data rows inside
    /// a single transaction, each row's cells bound in column order. The
    /// first failure aborts the whole load; a failing insert rolls the
    /// file's transaction back before the error propagates.
    ///
    /// On success, `requests()` grows by exactly `load_requests_from`: the
    /// creation statement, the transaction begin, one insert per data row
    /// with the row's cells as its bound values, and the commit, per file in
    /// order — the whole of what this load hands to the store.
    #[verifier::loop_isolation(false)]
    pub fn load_files(&mut self, files: &Vec<FileSource>) -> (r: Result<(), ZsqlError>)
        ensures
            r is Ok ==> final(self).requests() == old(self).requests() + load_requests_from(
                files@,
                0,
                old(self).sep(),
            ),
            r is Ok ==> final(self).files_loaded() == old(self).files_loaded() + files@.len(),
            r is Ok ==> forall|i: int|
                0 <= i < files@.len() ==> ((#[trigger] files@[i]).content matches Some(text) && lines_spec(
                    text@,
                ).len() >= 1),
            r matches Err(e) ==> match e {
                ZsqlError::FileNotFound { path } => exists|i: int|
                    0 <= i < files@.len() && files@[i].content is None && path@
                        == files@[i].path@,
                ZsqlError::EmptyOrUnreadable { path } => exists|i: int|
                    0 <= i < files@.len() && (files@[i].content matches Some(t) && lines_spec(
                        t@,
                    ).len() == 0) && path@ == files@[i].path@,
                ZsqlError::Engine { .. } => true,
            },
            files@.len() == 0 ==> r is Ok,
            files@.len() > 0 && files@[0].content is None ==> (r matches Err(e) && e matches
                ZsqlError::FileNotFound { path } && path@ == files@[0].path@),
            files@.len() > 0 && (files@[0].content matches Some(t) && lines_spec(t@).len() == 0)
                ==> (r matches Err(e) && e matches ZsqlError::EmptyOrUnreadable { path } && path@
                == files@[0].path@),
            final(self).sep() == old(self).sep(),
    {
        let no_params: Vec<String> = Vec::new();
        let mut fi: usize = 0;
        while fi < files.len()
            invariant
                fi <= files@.len(),
                self.csv_loader.csvs@.len() == old(self).csv_loader.csvs@.len() + fi,
                self.separator == old(self).separator,
                old(self).issued@ + load_requests_from(files@, 0, old(self).separator)
                    == self.issued@ + load_requests_from(files@, fi as int, old(self).separator),
                forall|i: int|
                    0 <= i < fi ==> ((#[trigger] files@[i]).content matches Some(text) && lines_spec(
                        text@,
                    ).len() >= 1),
                no_params@.len() == 0,
            decreases files@.len() - fi,
        {
            let f = &files[fi];
            let csv = match self.csv_loader.load(f.path.as_str(), &f.content, self.separator) {
                Result::Ok(c) => c,
                Result::Err(e) => {
                    proof {
                        assert(files@[fi as int].content == f.content);
                    }
                    return Result::Err(e);
                },
            };
            proof {
                assert(files@[fi as int].content matches Some(t) && lines_spec(t@).len() >= 1);
            }
            let ghost fsrc = files@[fi as int];
            let ghost text = source_text(fsrc);
            let ghost name0 = derived_name_spec(fsrc.path@);
            let ghost rows = lines_spec(text).drop_first();
            let ghost freqs = file_requests(fsrc, self.separator);
            proof {
                assert(fsrc.content matches Some(t) && text == t@);
                assert(csv.parsed_from(fsrc.path@, text, self.separator));
            }
            let name = derive_name(f.path.as_str());
            let create = build_create_statement(name.as_str(), &csv.columns);
            proof {
                assert(csv.columns@.map_values(|c: String| c@) =~= fields_spec(
                    lines_spec(text)[0],
                    self.separator,
                ));
                assert(create@ == create_stmt_spec(
                    name0,
                    fields_spec(lines_spec(text)[0], self.separator),
                ));
            }
            let ghost issued_start = self.issued@;
            match run_stmt(&self.conn, create.as_str(), &no_params) {
                Result::Ok(_) => {},
                Result::Err(e) => {
                    return Result::Err(ZsqlError::Engine { message: store_error_text(&e) });
                },
            }
            self.issued = Ghost(
                self.issued@.push(StoreRequest { stmt: create@, values: Seq::empty() }),
            );
            match run_stmt(&self.conn, "BEGIN", &no_params) {
                Result::Ok(_) => {},
                Result::Err(e) => {
                    return Result::Err(ZsqlError::Engine { message: store_error_text(&e) });
                },
            }
            self.issued = Ghost(
                self.issued@.push(StoreRequest { stmt: "BEGIN"@, values: Seq::empty() }),
            );
            proof {
                assert(freqs[0] == StoreRequest {
                    stmt: create@,
                    values: Seq::<Seq<char>>::empty(),
                });
                assert(freqs[1] == StoreRequest {
                    stmt: "BEGIN"@,
                    values: Seq::<Seq<char>>::empty(),
                });
                assert(freqs.take(2) =~= seq![freqs[0], freqs[1]]);
                assert(self.issued@ =~= issued_start + freqs.take(2));
                assert(freqs.len() == 3 + rows.len());
            }
            let lines = csv.lines();
            let mut li: usize = 0;
            let ghost mut ins_reqs: Seq<StoreRequest> = Seq::empty();
            while li < lines.len()
                invariant
                    li <= lines@.len(),
                    ins_reqs =~= freqs.subrange(2, 2 + li as int),
                decreases lines@.len() - li,
            {
                let cells = split_fields(lines[li].as_str(), self.separator);
                let ins = build_insert_statement(name.as_str(), cells.len());
                match run_stmt(&self.conn, ins.as_str(), &cells) {
                    Result::Ok(_) => {},
                    Result::Err(e) => {
                        let msg = store_error_text(&e);
                        let _rollback = run_stmt(&self.conn, "ROLLBACK", &no_params);
                        return Result::Err(ZsqlError::Engine { message: msg });
                    },
                }
                proof {
                    assert(lines@[li as int]@ == csv.rows()[li as int]);
                    assert(csv.rows()[li as int] == lines_spec(text)[li as int + 1]);
                    assert(rows[li as int] == lines_spec(text)[li as int + 1]);
                    assert(lines@[li as int]@ == rows[li as int]);
                    assert(cells@.map_values(|c: String| c@) =~= fields_spec(
                        rows[li as int],
                        self.separator,
                    ));
                    assert(freqs[2 + li as int] == StoreRequest {
                        stmt: insert_stmt_spec(
                            name0,
                            fields_spec(rows[li as int], self.separator).len() as int,
                        ),
                        values: fields_spec(rows[li as int], self.separator),
                    });
                    assert(ins@ == insert_stmt_spec(name0, cells@.len() as int));
                    ins_reqs = ins_reqs.push(
                        StoreRequest { stmt: ins@, values: cells@.map_values(|c: String| c@) },
                    );
                    assert(ins_reqs =~= freqs.subrange(2, 2 + li as int + 1));
                }
                li += 1;
            }
            self.issued = Ghost(self.issued@ + ins_reqs);
            proof {
                assert(lines@.len() == rows.len());
                assert(freqs.take(2) + freqs.subrange(2, 2 + rows.len() as int) =~= freqs.take(
                    2 + rows.len() as int,
                ));
                assert(self.issued@ =~= issued_start + freqs.take(2 + rows.len() as int));
            }
            match run_stmt(&self.conn, "COMMIT", &no_params) {
                Result::Ok(_) => {},
                Result::Err(e) => {
                    return Result::Err(ZsqlError::Engine { message: store_error_text(&e) });
                },
            }
            self.issued = Ghost(
                self.issued@.push(StoreRequest { stmt: "COMMIT"@, values: Seq::empty() }),
            );
            proof {
                assert(freqs[2 + rows.len() as int] == StoreRequest {
                    stmt: "COMMIT"@,
                    values: Seq::<Seq<char>>::empty(),
                });
                assert(self.issued@ =~= issued_start + freqs);
                assert(load_requests_from(files@, fi as int, old(self).separator) == freqs
                    + load_requests_from(files@, fi + 1, old(self).separator));
                assert(old(self).issued@ + load_requests_from(files@, 0, old(self).separator)
                    =~= self.issued@ + load_requests_from(files@, fi + 1, old(self).separator));
            }
            fi += 1;
        }
        proof {
            assert(load_requests_from(files@, files@.len() as int, old(self).separator)
                == Seq::<StoreRequest>::empty());
            assert(self.issued@ =~= old(self).issued@ + load_requests_from(
                files@,
                0,
                old(self).separator,
            ));
        }
        Result::Ok(())
    }

    /// Run the rewritten query against the store: every result row comes
    /// back as one comma-joined, line-break-terminated text line, in the
    /// store's order.
    pub fn query(&self, query: &str) -> (r: Result<Vec<String>, ZsqlError>)
        ensures
            r matches Ok(lines) ==> forall|i: int|
                0 <= i < lines@.len() ==> is_row_line((#[trigger] lines@[i])@),
            r matches Err(e) ==> e matches ZsqlError::Engine { .. },
    {
        match fetch_rows(&self.conn, query) {
            Result::Ok(rows) => {
                let lines = format_rows(&rows);
                proof {
                    assert forall|i: int| 0 <= i < lines@.len() implies is_row_line(
                        (#[trigger] lines@[i])@,
                    ) by {
                        let w = rows@[i]@.map_values(|c: String| c@);
                        assert(lines@[i]@ == row_line_spec(w));
                    }
                }
                Result::Ok(lines)
            },
            Result::Err(e) => Result::Err(ZsqlError::Engine { message: store_error_text(&e) }),
        }
    }
}

} // verus!
