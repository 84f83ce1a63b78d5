//! CSV guest import: the body is parsed by the CSV reader, each record
//! is turned into a guest (with a derived invite type, maybe-flag and a
//! placeholder email made unique by the guest's fresh code), and parse
//! failures are reported per row.

use vstd::prelude::*;
use vstd::string::StrSliceExecFns;
use vstd::string::StringExecFns;

use crate::guests::Guest;
use crate::guests::GuestBook;
use crate::guests::lemma_guest_refs_hold;
use crate::text::dec_seq;
use crate::text::email_local_of;
use crate::text::email_name_of;
use crate::text::hex_code8;
use crate::text::eq_ignore_ascii_case;
use crate::text::str_eq;
use crate::text::str_eq_ignore_case;
use crate::text::u64_to_string;

verus! {

/// One data record of the import body: the four guest columns.
pub struct CsvGuestRow {
    pub name: String,
    pub relationship: String,
    pub sam_or_jonah: String,
    pub maybe: String,
}

/// The outcome of an import: rows imported, and one message per row
/// that could not be parsed.
pub struct ImportResponse {
    pub success: bool,
    pub imported_count: usize,
    pub errors: Vec<String>,
}

/// What the CSV reader yields for an import body: for each data record
/// after the header row, either the four guest columns or a parse error
/// message.
pub uninterp spec fn guest_rows_of(s: Seq<char>) -> Seq<
    Result<(Seq<char>, Seq<char>, Seq<char>, Seq<char>), Seq<char>>,
>;

/// The parsed row `r` carries the fields of `v`.
pub open spec fn row_matches(
    r: Result<CsvGuestRow, String>,
    v: Result<(Seq<char>, Seq<char>, Seq<char>, Seq<char>), Seq<char>>,
) -> bool {
    match (r, v) {
        (Ok(row), Ok(t)) => {
            &&& row.name@ == t.0
            &&& row.relationship@ == t.1
            &&& row.sam_or_jonah@ == t.2
            &&& row.maybe@ == t.3
        },
        (Err(e), Err(m)) => e@ == m,
        _ => false,
    }
}

/// Relies on `csv::Reader`: reads the body with its first line as the
/// header row; of each data record the first four fields are the guest
/// columns (name, relationship, side-of-family, maybe), a missing field
/// reading as empty; a record that cannot be parsed yields its error
/// message.
#[verifier::external_body]
fn read_guest_rows(body: &str) -> (rows: Vec<Result<CsvGuestRow, String>>)
    ensures
        rows@.len() == guest_rows_of(body@).len(),
        forall|i: int|
            0 <= i < rows@.len() ==> row_matches(#[trigger] rows@[i], guest_rows_of(body@)[i]),
{
    let mut reader = csv::Reader::from_reader(body.as_bytes());
    let mut rows = Vec::new();
    for record in reader.records() {
        rows.push(match record {
            Ok(r) => Ok(CsvGuestRow {
                name: r.get(0).unwrap_or("").to_string(),
                relationship: r.get(1).unwrap_or("").to_string(),
                sam_or_jonah: r.get(2).unwrap_or("").to_string(),
                maybe: r.get(3).unwrap_or("").to_string(),
            }),
            Err(e) => Err(e.to_string()),
        });
    }
    rows
}

/// The invite type derived from the relationship column: a "+1" row is a
/// plus-one, anything else a single.
pub open spec fn invite_type_of(rel: Seq<char>) -> Seq<char> {
    if rel == "+1"@ {
        "plus_one"@
    } else {
        "single"@
    }
}

/// The number of parsed rows.
pub open spec fn count_ok(
    rows: Seq<Result<(Seq<char>, Seq<char>, Seq<char>, Seq<char>), Seq<char>>>,
) -> int
    decreases rows.len(),
{
    if rows.len() == 0 {
        0
    } else {
        count_ok(rows.drop_last()) + if rows.last() is Ok {
            1int
        } else {
            0int
        }
    }
}

/// The parsed rows' columns, in order.
pub open spec fn ok_rows(
    rows: Seq<Result<(Seq<char>, Seq<char>, Seq<char>, Seq<char>), Seq<char>>>,
) -> Seq<(Seq<char>, Seq<char>, Seq<char>, Seq<char>)>
    decreases rows.len(),
{
    if rows.len() == 0 {
        Seq::empty()
    } else {
        match rows.last() {
            Ok(t) => ok_rows(rows.drop_last()).push(t),
            Err(e) => ok_rows(rows.drop_last()),
        }
    }
}

/// The message reported for a failed row: its 1-based row number and the
/// reader's error.
pub open spec fn row_error_text(row_number: int, e: Seq<char>) -> Seq<char> {
    "Row "@ + dec_seq(row_number) + ": "@ + e
}

/// The error messages of an import, in row order.
pub open spec fn err_texts(
    rows: Seq<Result<(Seq<char>, Seq<char>, Seq<char>, Seq<char>), Seq<char>>>,
) -> Seq<Seq<char>>
    decreases rows.len(),
{
    if rows.len() == 0 {
        Seq::empty()
    } else {
        match rows.last() {
            Ok(t) => err_texts(rows.drop_last()),
            Err(e) => err_texts(rows.drop_last()).push(row_error_text(rows.len() as int, e)),
        }
    }
}

/// The guest imported for row `t` (whose fresh code the record carries):
/// derived invite type and maybe-flag, and a placeholder email of the
/// lowercased, underscore-joined name and the code — unique by the code
/// and editable later.
pub open spec fn imported_guest_ok(
    g: Guest,
    t: (Seq<char>, Seq<char>, Seq<char>, Seq<char>),
    id: int,
    now: i64,
) -> bool {
    &&& g.id as int == id
    &&& g.name@ == t.0
    &&& g.relationship@ == t.1
    &&& g.sam_or_jonah@ == t.2
    &&& g.maybe == eq_ignore_ascii_case(t.3, "yes"@)
    &&& g.invite_type@ == invite_type_of(t.1)
    &&& hex_code8(g.unique_code@)
    &&& g.email@ == email_local_of(t.0) + "_"@ + g.unique_code@
    &&& g.removed == false
    &&& g.invite_id is None
    &&& g.created_at == now && g.updated_at == now
}

proof fn lemma_rows_take_step(
    rows: Seq<Result<(Seq<char>, Seq<char>, Seq<char>, Seq<char>), Seq<char>>>,
    i: int,
)
    requires
        0 <= i < rows.len(),
    ensures
        count_ok(rows.take(i + 1)) == count_ok(rows.take(i)) + if rows[i] is Ok {
            1int
        } else {
            0int
        },
        ok_rows(rows.take(i + 1)) == match rows[i] {
            Ok(t) => ok_rows(rows.take(i)).push(t),
            Err(e) => ok_rows(rows.take(i)),
        },
        err_texts(rows.take(i + 1)) == match rows[i] {
            Ok(t) => err_texts(rows.take(i)),
            Err(e) => err_texts(rows.take(i)).push(row_error_text(i + 1, e)),
        },
{
    assert(rows.take(i + 1).drop_last() =~= rows.take(i));
    assert(rows.take(i + 1).last() == rows[i]);
    assert(rows.take(i + 1).len() == i + 1);
}

proof fn lemma_ok_rows_len(
    rows: Seq<Result<(Seq<char>, Seq<char>, Seq<char>, Seq<char>), Seq<char>>>,
)
    ensures
        ok_rows(rows).len() == count_ok(rows),
        0 <= count_ok(rows) <= rows.len(),
    decreases rows.len(),
{
    if rows.len() > 0 {
        lemma_ok_rows_len(rows.drop_last());
    }
}

proof fn lemma_count_ok_take_le(
    rows: Seq<Result<(Seq<char>, Seq<char>, Seq<char>, Seq<char>), Seq<char>>>,
    i: int,
)
    requires
        0 <= i <= rows.len(),
    ensures
        count_ok(rows.take(i)) <= count_ok(rows),
    decreases rows.len() - i,
{
    if i == rows.len() {
        assert(rows.take(i) =~= rows);
    } else {
        lemma_rows_take_step(rows, i);
        lemma_count_ok_take_le(rows, i + 1);
    }
}

/// Imports guests from a CSV body: every parsed record becomes a guest
/// (duplicates are not checked — the placeholder email is unique by
/// construction), and every failed record contributes one error message
/// with its row number. The import succeeds when no record failed.
pub fn import_guests(book: &mut GuestBook, body: &str, now: i64) -> (r: ImportResponse)
    requires
        old(book).wf(),
    ensures
        final(book).wf(),
        final(book).invites == old(book).invites,
        final(book).next_invite_id == old(book).next_invite_id,
        ({
            let rows = guest_rows_of(body@);
            old(book).next_guest_id + count_ok(rows) <= u64::MAX ==> {
                &&& r.imported_count as int == count_ok(rows)
                &&& r.success == (err_texts(rows).len() == 0)
                &&& r.errors@.len() == err_texts(rows).len()
                &&& (forall|k: int|
                    0 <= k < r.errors@.len() ==> (#[trigger] r.errors@[k])@ == err_texts(rows)[k])
                &&& final(book).next_guest_id as int == old(book).next_guest_id + count_ok(rows)
                &&& final(book).guests@.len() == old(book).guests@.len() + count_ok(rows)
                &&& (forall|j: int|
                    0 <= j < old(book).guests@.len() ==> final(book).guests@[j] == old(
                        book,
                    ).guests@[j])
                &&& (forall|k: int|
                    0 <= k < count_ok(rows) ==> imported_guest_ok(
                        #[trigger] final(book).guests@[old(book).guests@.len() + k],
                        ok_rows(rows)[k],
                        old(book).next_guest_id + k,
                        now,
                    ))
            }
        }),
{
    let rows = read_guest_rows(body);
    let ghost rs = guest_rows_of(body@);
    let ghost g0 = old(book).guests@;
    let ghost id0 = old(book).next_guest_id;
    let ghost inv0 = old(book).invites;
    let ghost ni0 = old(book).next_invite_id;
    proof {
        lemma_ok_rows_len(rs);
    }
    let mut imported_count: usize = 0;
    let mut errors: Vec<String> = Vec::new();
    let mut i: usize = 0;
    while i < rows.len()
        invariant
            i <= rows@.len(),
            rows@.len() == rs.len(),
            forall|k: int| 0 <= k < rs.len() ==> row_matches(#[trigger] rows@[k], rs[k]),
            book.wf(),
            book.invites == inv0,
            book.next_invite_id == ni0,
            ok_rows(rs).len() == count_ok(rs),
            imported_count <= i,
            id0 + count_ok(rs) <= u64::MAX ==> {
                &&& imported_count as int == count_ok(rs.take(i as int))
                &&& errors@.len() == err_texts(rs.take(i as int)).len()
                &&& (forall|k: int|
                    0 <= k < errors@.len() ==> (#[trigger] errors@[k])@ == err_texts(
                        rs.take(i as int),
                    )[k])
                &&& book.next_guest_id as int == id0 + count_ok(rs.take(i as int))
                &&& book.guests@.len() == g0.len() + count_ok(rs.take(i as int))
                &&& (forall|j: int| 0 <= j < g0.len() ==> book.guests@[j] == g0[j])
                &&& (forall|k: int|
                    0 <= k < count_ok(rs.take(i as int)) ==> imported_guest_ok(
                        #[trigger] book.guests@[g0.len() + k],
                        ok_rows(rs)[k],
                        id0 + k,
                        now,
                    ))
            },
        decreases rows@.len() - i,
    {
        proof {
            lemma_rows_take_step(rs, i as int);
            lemma_count_ok_take_le(rs, i as int + 1);
            lemma_ok_rows_len(rs.take(i as int));
            lemma_ok_rows_len(rs.take(i as int + 1));
            assert(row_matches(rows@[i as int], rs[i as int]));
        }
        match &rows[i] {
            Ok(row) => {
                if book.next_guest_id < u64::MAX {
                    let unique_code = crate::guests::fresh_guest_code();
                    let mut email = email_name_of(row.name.as_str());
                    email.append("_");
                    email.append(unique_code.as_str());
                    let maybe = str_eq_ignore_case(row.maybe.as_str(), "yes");
                    let invite_type = if str_eq(row.relationship.as_str(), "+1") {
                        String::from_str("plus_one")
                    } else {
                        String::from_str("single")
                    };
                    let ghost cur = *book;
                    let g = Guest {
                        id: book.next_guest_id,
                        name: row.name.clone(),
                        email,
                        relationship: row.relationship.clone(),
                        sam_or_jonah: row.sam_or_jonah.clone(),
                        maybe,
                        unique_code,
                        invite_type,
                        removed: false,
                        invite_id: None,
                        created_at: now,
                        updated_at: now,
                    };
                    book.guests.push(g);
                    book.next_guest_id = book.next_guest_id + 1;
                    imported_count = imported_count + 1;
                    proof {
                        lemma_guest_refs_hold(cur, *book);
                        if id0 + count_ok(rs) <= u64::MAX {
                            lemma_ok_rows_at(rs, i as int);
                            let c = count_ok(rs.take(i as int));
                            let t = ok_rows(rs)[c];
                            assert(book.guests@[g0.len() + c].email@ =~= email_local_of(t.0) + "_"@
                                + book.guests@[g0.len() + c].unique_code@);
                            assert(imported_guest_ok(book.guests@[g0.len() + c], t, id0 + c, now));
                        }
                    }
                }
            },
            Err(e) => {
                let mut msg = String::new();
                msg.append("Row ");
                let num = u64_to_string(i as u64 + 1);
                msg.append(num.as_str());
                msg.append(": ");
                msg.append(e.as_str());
                proof {
                    assert(msg@ =~= row_error_text(i as int + 1, e@));
                }
                errors.push(msg);
            },
        }
        i = i + 1;
    }
    proof {
        assert(rs.take(rs.len() as int) =~= rs);
    }
    let success = errors.len() == 0;
    ImportResponse { success, imported_count, errors }
}

/// A row parsed at position `i` is the next entry of the full
/// parsed-row sequence, after those of the rows before it.
proof fn lemma_ok_rows_at(
    rows: Seq<Result<(Seq<char>, Seq<char>, Seq<char>, Seq<char>), Seq<char>>>,
    i: int,
)
    requires
        0 <= i < rows.len(),
        rows[i] is Ok,
    ensures
        count_ok(rows.take(i)) < ok_rows(rows).len(),
        ok_rows(rows)[count_ok(rows.take(i))] == rows[i]->Ok_0,
    decreases rows.len(),
{
    lemma_ok_rows_len(rows);
    lemma_ok_rows_len(rows.take(i));
    lemma_ok_rows_len(rows.drop_last());
    if i == rows.len() - 1 {
        assert(rows.take(i) =~= rows.drop_last());
    } else {
        assert(rows.drop_last().take(i) =~= rows.take(i));
        assert(rows.drop_last()[i] == rows[i]);
        lemma_ok_rows_at(rows.drop_last(), i);
    }
}

} // verus!
