//! The plain-text summary of a file analysis that is handed to the language
//! model as context.
use vstd::prelude::*;
use crate::seqs::{lemma_flatten_empty, lemma_flatten_step};
use crate::text::{chars_of, dec, extend_chars, extend_str, fmt_u64, fmt_usize, string_of};

verus! {

/// A column found in an analysed table; `data_type` is the name of its
/// inferred type.
pub struct ColumnSummary {
    pub name: String,
    pub data_type: String,
}

/// A table (or sheet) found in an analysed file.
pub struct TableSummary {
    pub name: String,
    pub columns: Vec<ColumnSummary>,
    pub row_count: Option<u64>,
}

/// A detected link `from_table.from_column -> to_table.to_column`.
pub struct RelationshipSummary {
    pub from_table: String,
    pub from_column: String,
    pub to_table: String,
    pub to_column: String,
}

/// A detected workflow pattern; `workflow_type` is the name of its kind.
pub struct WorkflowSummary {
    pub workflow_type: String,
    pub description: String,
}

/// What the analysis of the uploaded files found.
pub struct AnalysisResult {
    pub tables: Vec<TableSummary>,
    pub relationships: Vec<RelationshipSummary>,
    pub workflows: Vec<WorkflowSummary>,
}

pub open spec fn column_line(c: ColumnSummary) -> Seq<char> {
    "      "@ + c.name@ + ": "@ + c.data_type@ + "\n"@
}

pub open spec fn rows_of(t: TableSummary) -> nat {
    match t.row_count {
        Some(n) => n as nat,
        None => 0,
    }
}

pub open spec fn table_block(t: TableSummary) -> Seq<char> {
    "  - "@ + t.name@ + " ("@ + dec(t.columns@.len()) + " columns, ~"@ + dec(rows_of(t)) + " rows)\n"@
        + t.columns@.map_values(|c: ColumnSummary| column_line(c)).flatten()
}

pub open spec fn relationship_line(r: RelationshipSummary) -> Seq<char> {
    "  - "@ + r.from_table@ + "."@ + r.from_column@ + " -> "@ + r.to_table@ + "."@ + r.to_column@ + "\n"@
}

pub open spec fn workflow_line(w: WorkflowSummary) -> Seq<char> {
    "  - "@ + w.workflow_type@ + ": "@ + w.description@ + "\n"@
}

/// The whole summary: the tables with their columns, then the relationships
/// and the workflows, each of those two parts only when there are any.
pub open spec fn web_summary(r: AnalysisResult) -> Seq<char> {
    "Tables ("@ + dec(r.tables@.len()) + "):\n"@ + r.tables@.map_values(|t: TableSummary| table_block(t)).flatten()
        + (if r.relationships@.len() == 0 {
        Seq::empty()
    } else {
        "\nRelationships ("@ + dec(r.relationships@.len()) + "):\n"@ + r.relationships@.map_values(
            |x: RelationshipSummary| relationship_line(x),
        ).flatten()
    }) + (if r.workflows@.len() == 0 {
        Seq::empty()
    } else {
        "\nWorkflows ("@ + dec(r.workflows@.len()) + "):\n"@ + r.workflows@.map_values(
            |w: WorkflowSummary| workflow_line(w),
        ).flatten()
    })
}

fn table_block_exec(t: &TableSummary) -> (r: Vec<char>)
    ensures
        r@ == table_block(*t),
{
    let mut r = chars_of("  - ");
    extend_str(&mut r, t.name.as_str());
    extend_str(&mut r, " (");
    let n = fmt_usize(t.columns.len());
    extend_chars(&mut r, n.as_slice());
    extend_str(&mut r, " columns, ~");
    let rows: u64 = match t.row_count {
        Some(n) => n,
        None => 0,
    };
    let rn = fmt_u64(rows);
    extend_chars(&mut r, rn.as_slice());
    extend_str(&mut r, " rows)\n");
    let ghost head = r@;
    let ghost f = |c: ColumnSummary| column_line(c);
    proof {
        lemma_flatten_empty(t.columns@, f);
    }
    let mut i: usize = 0;
    while i < t.columns.len()
        invariant
            i <= t.columns.len(),
            f == (|c: ColumnSummary| column_line(c)),
            r@ == head + t.columns@.take(i as int).map_values(f).flatten(),
        decreases t.columns.len() - i,
    {
        let ghost prev = r@;
        extend_str(&mut r, "      ");
        extend_str(&mut r, t.columns[i].name.as_str());
        extend_str(&mut r, ": ");
        extend_str(&mut r, t.columns[i].data_type.as_str());
        extend_str(&mut r, "\n");
        proof {
            lemma_flatten_step(t.columns@, f, i as int);
            assert(r@ =~= prev + f(t.columns@[i as int]));
        }
        i = i + 1;
    }
    assert(t.columns@.take(t.columns.len() as int) =~= t.columns@);
    r
}

/// Summarises an analysis as text: a header line per table with its column
/// count and row count (0 when unknown), a line per column with its type,
/// then the relationships and the workflows when there are any.
pub fn build_web_summary(result: &AnalysisResult) -> (s: String)
    ensures
        s@ == web_summary(*result),
{
    let mut s = chars_of("Tables (");
    let n = fmt_usize(result.tables.len());
    extend_chars(&mut s, n.as_slice());
    extend_str(&mut s, "):\n");
    let ghost h1 = s@;
    let ghost ft = |t: TableSummary| table_block(t);
    proof {
        lemma_flatten_empty(result.tables@, ft);
    }
    let mut i: usize = 0;
    while i < result.tables.len()
        invariant
            i <= result.tables.len(),
            ft == (|t: TableSummary| table_block(t)),
            s@ == h1 + result.tables@.take(i as int).map_values(ft).flatten(),
        decreases result.tables.len() - i,
    {
        let ghost prev = s@;
        let b = table_block_exec(&result.tables[i]);
        extend_chars(&mut s, b.as_slice());
        proof {
            lemma_flatten_step(result.tables@, ft, i as int);
            assert(s@ =~= prev + ft(result.tables@[i as int]));
        }
        i = i + 1;
    }
    assert(result.tables@.take(result.tables.len() as int) =~= result.tables@);
    let ghost h2 = s@;
    let ghost fr = |x: RelationshipSummary| relationship_line(x);
    if result.relationships.len() > 0 {
        extend_str(&mut s, "\nRelationships (");
        let n = fmt_usize(result.relationships.len());
        extend_chars(&mut s, n.as_slice());
        extend_str(&mut s, "):\n");
        let ghost h = s@;
        proof {
            lemma_flatten_empty(result.relationships@, fr);
        }
        let mut i: usize = 0;
        while i < result.relationships.len()
            invariant
                i <= result.relationships.len(),
                fr == (|x: RelationshipSummary| relationship_line(x)),
                s@ == h + result.relationships@.take(i as int).map_values(fr).flatten(),
            decreases result.relationships.len() - i,
        {
            let ghost prev = s@;
            let r = &result.relationships[i];
            extend_str(&mut s, "  - ");
            extend_str(&mut s, r.from_table.as_str());
            extend_str(&mut s, ".");
            extend_str(&mut s, r.from_column.as_str());
            extend_str(&mut s, " -> ");
            extend_str(&mut s, r.to_table.as_str());
            extend_str(&mut s, ".");
            extend_str(&mut s, r.to_column.as_str());
            extend_str(&mut s, "\n");
            proof {
                lemma_flatten_step(result.relationships@, fr, i as int);
                assert(s@ =~= prev + fr(result.relationships@[i as int]));
            }
            i = i + 1;
        }
        assert(result.relationships@.take(result.relationships.len() as int) =~= result.relationships@);
    }
    let ghost h3 = s@;
    let ghost fw = |w: WorkflowSummary| workflow_line(w);
    if result.workflows.len() > 0 {
        extend_str(&mut s, "\nWorkflows (");
        let n = fmt_usize(result.workflows.len());
        extend_chars(&mut s, n.as_slice());
        extend_str(&mut s, "):\n");
        let ghost h = s@;
        proof {
            lemma_flatten_empty(result.workflows@, fw);
        }
        let mut i: usize = 0;
        while i < result.workflows.len()
            invariant
                i <= result.workflows.len(),
                fw == (|w: WorkflowSummary| workflow_line(w)),
                s@ == h + result.workflows@.take(i as int).map_values(fw).flatten(),
            decreases result.workflows.len() - i,
        {
            let ghost prev = s@;
            let w = &result.workflows[i];
            extend_str(&mut s, "  - ");
            extend_str(&mut s, w.workflow_type.as_str());
            extend_str(&mut s, ": ");
            extend_str(&mut s, w.description.as_str());
            extend_str(&mut s, "\n");
            proof {
                lemma_flatten_step(result.workflows@, fw, i as int);
                assert(s@ =~= prev + fw(result.workflows@[i as int]));
            }
            i = i + 1;
        }
        assert(result.workflows@.take(result.workflows.len() as int) =~= result.workflows@);
    }
    proof {
        if result.relationships@.len() == 0 {
            assert(h3 =~= h2 + Seq::<char>::empty());
        }
        if result.workflows@.len() == 0 {
            assert(s@ =~= h3 + Seq::<char>::empty());
        }
        assert(s@ =~= web_summary(*result));
    }
    string_of(s.as_slice())
}

} // verus!
