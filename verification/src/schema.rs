//! Table metadata: the whitelist that every dynamic query is resolved against.
//! Table names, column names, sort, group and aggregate fields must all hit
//! this metadata; values never become part of SQL text.

use crate::error::{e_unknown_column, e_unknown_table, ApiError};
use crate::json::{
    clone_json_vec, count_json, count_value, jv_obj, jv_seq, lemma_jv_obj, lemma_jv_seq, str_array, string_array, Json, JsonV,
};
use crate::text::{cat, contains_str, copy_string, dedup, owned, seq_lt, str_eq, str_lt};
use crate::text::{lemma_lt_irreflexive, lemma_lt_total, lemma_lt_transitive};
use vstd::prelude::*;

verus! {

#[derive(Debug, Clone)]
pub struct Reference {
    pub table: String,
    pub column: String,
}

#[derive(Debug, Clone)]
pub struct Column {
    pub name: String,
    /// Semantic type: TEXT / INTEGER / REAL / BOOLEAN
    pub ty: String,
    pub sql_type: String,
    pub primary_key: bool,
    pub auto_increment: bool,
    pub not_null: bool,
    pub unique: bool,
    /// Allowed values (TEXT with CHECK IN (...))
    pub enum_values: Option<Vec<String>>,
    pub boolean: bool,
    pub default: Option<String>,
    pub references: Option<Reference>,
    /// The column stores JSON text
    pub json: bool,
}

#[derive(Debug, Clone)]
pub struct ForeignKey {
    pub columns: Vec<String>,
    pub ref_table: String,
    pub ref_columns: Vec<String>,
    pub on_delete: Option<String>,
}

#[derive(Debug, Clone)]
pub struct IndexDef {
    pub name: String,
    pub columns: Vec<String>,
}

#[derive(Debug, Clone)]
pub struct BelongsTo {
    pub table: String,
    pub column: String,
    pub ref_column: String,
    pub on_delete: Option<String>,
}

#[derive(Debug, Clone)]
pub struct HasMany {
    pub table: String,
    pub column: String,
    pub on_delete: Option<String>,
}

#[derive(Debug, Clone)]
pub struct Table {
    pub name: String,
    pub group_code: String,
    pub group: String,
    pub primary_key: Vec<String>,
    pub unique_keys: Vec<Vec<String>>,
    pub foreign_keys: Vec<ForeignKey>,
    pub columns: Vec<Column>,
    pub indexes: Vec<IndexDef>,
    pub belongs_to: Vec<BelongsTo>,
    pub has_many: Vec<HasMany>,
}

impl Column {
    pub open spec fn numeric(&self) -> bool {
        self.ty@ == "INTEGER"@ || self.ty@ == "REAL"@ || self.ty@ == "BOOLEAN"@
    }

    /// Whether the column holds numbers (INTEGER, REAL or BOOLEAN).
    pub fn is_numeric(&self) -> (r: bool)
        ensures
            r == self.numeric(),
    {
        str_eq(self.ty.as_str(), "INTEGER") || str_eq(self.ty.as_str(), "REAL") || str_eq(
            self.ty.as_str(),
            "BOOLEAN",
        )
    }
}

/// The first column of `cols` named `name`.
pub open spec fn first_col(cols: Seq<Column>, name: Seq<char>) -> Option<Column>
    decreases cols.len(),
{
    if cols.len() == 0 {
        None
    } else if cols[0].name@ == name {
        Some(cols[0])
    } else {
        first_col(cols.drop_first(), name)
    }
}

pub open spec fn col_names(cols: Seq<Column>) -> Seq<Seq<char>> {
    cols.map_values(|c: Column| c.name@)
}

/// Names of all the TEXT columns, in order.
pub open spec fn searchable(cols: Seq<Column>) -> Seq<Seq<char>>
    decreases cols.len(),
{
    if cols.len() == 0 {
        Seq::empty()
    } else {
        let s = searchable(cols.drop_last());
        if cols.last().sql_type@ == "TEXT"@ {
            s.push(cols.last().name@)
        } else {
            s
        }
    }
}

pub open spec fn belongs_names(b: Seq<BelongsTo>) -> Seq<Seq<char>> {
    b.map_values(|x: BelongsTo| x.table@)
}

pub open spec fn has_many_names(h: Seq<HasMany>) -> Seq<Seq<char>> {
    h.map_values(|x: HasMany| x.table@)
}

/// The first `belongs_to` link of a table to `table`.
pub open spec fn first_belongs(b: Seq<BelongsTo>, table: Seq<char>) -> Option<BelongsTo>
    decreases b.len(),
{
    if b.len() == 0 {
        None
    } else if b[0].table@ == table {
        Some(b[0])
    } else {
        first_belongs(b.drop_first(), table)
    }
}

/// The first `has_many` link of a table to `table`.
pub open spec fn first_has_many(h: Seq<HasMany>, table: Seq<char>) -> Option<HasMany>
    decreases h.len(),
{
    if h.len() == 0 {
        None
    } else if h[0].table@ == table {
        Some(h[0])
    } else {
        first_has_many(h.drop_first(), table)
    }
}

impl Table {
    pub open spec fn col(&self, name: Seq<char>) -> Option<Column> {
        first_col(self.columns@, name)
    }

    /// The column called `name`, if the table has one.
    pub fn column(&self, name: &str) -> (r: Option<&Column>)
        ensures
            match r {
                Some(c) => self.col(name@) == Some(*c),
                None => self.col(name@) is None,
            },
    {
        let mut i: usize = 0;
        assert(self.columns@.subrange(0, self.columns.len() as int) =~= self.columns@);
        while i < self.columns.len()
            invariant
                i <= self.columns.len(),
                self.col(name@) == first_col(
                    self.columns@.subrange(i as int, self.columns.len() as int),
                    name@,
                ),
            decreases self.columns.len() - i,
        {
            let ghost rest = self.columns@.subrange(i as int, self.columns.len() as int);
            assert(rest.drop_first() =~= self.columns@.subrange(i + 1, self.columns.len() as int));
            assert(rest[0] == self.columns@[i as int]);
            if str_eq(self.columns[i].name.as_str(), name) {
                return Some(&self.columns[i]);
            }
            i += 1;
        }
        None
    }

    /// The column called `name`, or 40004 listing the table's columns.
    pub fn require_column(&self, name: &str) -> (r: Result<&Column, ApiError>)
        ensures
            match r {
                Ok(c) => self.col(name@) == Some(*c),
                Err(e) => self.col(name@) is None && e@ == e_unknown_column(
                    self.name@,
                    name@,
                    col_names(self.columns@),
                ),
            },
    {
        match self.column(name) {
            Some(c) => Ok(c),
            None => Err(ApiError::unknown_column(self.name.as_str(), name, self.column_names())),
        }
    }

    pub fn column_names(&self) -> (r: Vec<String>)
        ensures
            r.deep_view() == col_names(self.columns@),
    {
        let mut out: Vec<String> = Vec::new();
        let mut i: usize = 0;
        while i < self.columns.len()
            invariant
                i <= self.columns.len(),
                out.len() == i,
                forall|k: int| 0 <= k < i ==> #[trigger] out@[k]@ == self.columns@[k].name@,
            decreases self.columns.len() - i,
        {
            out.push(copy_string(&self.columns[i].name));
            i += 1;
        }
        assert(out.deep_view() =~= col_names(self.columns@));
        out
    }

    pub fn is_single_pk(&self) -> (r: bool)
        ensures
            r == (self.primary_key.len() == 1),
    {
        self.primary_key.len() == 1
    }

    /// Tables that `expand` may name: the `belongs_to` targets, each once.
    pub fn expandable(&self) -> (r: Vec<String>)
        ensures
            r.deep_view() == dedup(belongs_names(self.belongs_to@)),
    {
        let mut v: Vec<String> = Vec::new();
        let mut i: usize = 0;
        while i < self.belongs_to.len()
            invariant
                i <= self.belongs_to.len(),
                v.deep_view() == dedup(belongs_names(self.belongs_to@.subrange(0, i as int))),
            decreases self.belongs_to.len() - i,
        {
            let ghost sub = belongs_names(self.belongs_to@.subrange(0, i + 1));
            assert(sub.drop_last() =~= belongs_names(self.belongs_to@.subrange(0, i as int)));
            assert(sub.last() == self.belongs_to@[i as int].table@);
            if !contains_str(&v, self.belongs_to[i].table.as_str()) {
                v.push(copy_string(&self.belongs_to[i].table));
                assert(v.deep_view() =~= dedup(sub));
            }
            i += 1;
        }
        assert(self.belongs_to@.subrange(0, self.belongs_to.len() as int) =~= self.belongs_to@);
        v
    }

    /// Tables that `children` may name: the `has_many` targets, each once.
    pub fn childable(&self) -> (r: Vec<String>)
        ensures
            r.deep_view() == dedup(has_many_names(self.has_many@)),
    {
        let mut v: Vec<String> = Vec::new();
        let mut i: usize = 0;
        while i < self.has_many.len()
            invariant
                i <= self.has_many.len(),
                v.deep_view() == dedup(has_many_names(self.has_many@.subrange(0, i as int))),
            decreases self.has_many.len() - i,
        {
            let ghost sub = has_many_names(self.has_many@.subrange(0, i + 1));
            assert(sub.drop_last() =~= has_many_names(self.has_many@.subrange(0, i as int)));
            assert(sub.last() == self.has_many@[i as int].table@);
            if !contains_str(&v, self.has_many[i].table.as_str()) {
                v.push(copy_string(&self.has_many[i].table));
                assert(v.deep_view() =~= dedup(sub));
            }
            i += 1;
        }
        assert(self.has_many@.subrange(0, self.has_many.len() as int) =~= self.has_many@);
        v
    }

    /// Columns searched by the global fuzzy search `q`: all the TEXT columns.
    pub fn searchable_columns(&self) -> (r: Vec<String>)
        ensures
            r.deep_view() == searchable(self.columns@),
    {
        let mut v: Vec<String> = Vec::new();
        let mut i: usize = 0;
        while i < self.columns.len()
            invariant
                i <= self.columns.len(),
                v.deep_view() == searchable(self.columns@.subrange(0, i as int)),
            decreases self.columns.len() - i,
        {
            let ghost sub = self.columns@.subrange(0, i + 1);
            assert(sub.drop_last() =~= self.columns@.subrange(0, i as int));
            let c = &self.columns[i];
            if str_eq(c.sql_type.as_str(), "TEXT") {
                v.push(copy_string(&c.name));
                assert(v.deep_view() =~= searchable(sub));
            }
            i += 1;
        }
        assert(self.columns@.subrange(0, self.columns.len() as int) =~= self.columns@);
        v
    }

    /// The first `belongs_to` link to `table`.
    pub fn belongs(&self, table: &str) -> (r: Option<&BelongsTo>)
        ensures
            match r {
                Some(b) => first_belongs(self.belongs_to@, table@) == Some(*b),
                None => first_belongs(self.belongs_to@, table@) is None,
            },
    {
        let mut i: usize = 0;
        assert(self.belongs_to@.subrange(0, self.belongs_to.len() as int) =~= self.belongs_to@);
        while i < self.belongs_to.len()
            invariant
                i <= self.belongs_to.len(),
                first_belongs(self.belongs_to@, table@) == first_belongs(
                    self.belongs_to@.subrange(i as int, self.belongs_to.len() as int),
                    table@,
                ),
            decreases self.belongs_to.len() - i,
        {
            let ghost rest = self.belongs_to@.subrange(i as int, self.belongs_to.len() as int);
            assert(rest.drop_first() =~= self.belongs_to@.subrange(
                i + 1,
                self.belongs_to.len() as int,
            ));
            assert(rest[0] == self.belongs_to@[i as int]);
            if str_eq(self.belongs_to[i].table.as_str(), table) {
                return Some(&self.belongs_to[i]);
            }
            i += 1;
        }
        None
    }

    /// The first `has_many` link to `table`.
    pub fn child_link(&self, table: &str) -> (r: Option<&HasMany>)
        ensures
            match r {
                Some(h) => first_has_many(self.has_many@, table@) == Some(*h),
                None => first_has_many(self.has_many@, table@) is None,
            },
    {
        let mut i: usize = 0;
        assert(self.has_many@.subrange(0, self.has_many.len() as int) =~= self.has_many@);
        while i < self.has_many.len()
            invariant
                i <= self.has_many.len(),
                first_has_many(self.has_many@, table@) == first_has_many(
                    self.has_many@.subrange(i as int, self.has_many.len() as int),
                    table@,
                ),
            decreases self.has_many.len() - i,
        {
            let ghost rest = self.has_many@.subrange(i as int, self.has_many.len() as int);
            assert(rest.drop_first() =~= self.has_many@.subrange(i + 1, self.has_many.len() as int));
            assert(rest[0] == self.has_many@[i as int]);
            if str_eq(self.has_many[i].table.as_str(), table) {
                return Some(&self.has_many[i]);
            }
            i += 1;
        }
        None
    }
}

// ---------------------------------------------------------------------------
// Registry
// ---------------------------------------------------------------------------

pub open spec fn table_names(s: Seq<Table>) -> Seq<Seq<char>> {
    s.map_values(|t: Table| t.name@)
}

pub open spec fn sorted_by_name(s: Seq<Table>) -> bool {
    forall|i: int, j: int| 0 <= i < j < s.len() ==> seq_lt(#[trigger] s[i].name@, #[trigger] s[j].name@)
}

/// The last table of `s` called `n` (a later definition replaces an earlier one).
pub open spec fn last_named(s: Seq<Table>, n: Seq<char>) -> Option<Table>
    decreases s.len(),
{
    if s.len() == 0 {
        None
    } else if s.last().name@ == n {
        Some(s.last())
    } else {
        last_named(s.drop_last(), n)
    }
}

/// (column name, table name) for every column of every table, in order.
pub open spec fn owner_pairs(s: Seq<Table>) -> Seq<(Seq<char>, Seq<char>)>
    decreases s.len(),
{
    if s.len() == 0 {
        Seq::empty()
    } else {
        owner_pairs(s.drop_last()) + s.last().columns@.map_values(
            |c: Column| (c.name@, s.last().name@),
        )
    }
}

/// The table names paired with column `c`, in order.
pub open spec fn owners_of(p: Seq<(Seq<char>, Seq<char>)>, c: Seq<char>) -> Seq<Seq<char>>
    decreases p.len(),
{
    if p.len() == 0 {
        Seq::empty()
    } else {
        let s = owners_of(p.drop_last(), c);
        if p.last().0 == c {
            s.push(p.last().1)
        } else {
            s
        }
    }
}

/// The table called `name` in `s` (the first one).
pub open spec fn lookup_in(s: Seq<Table>, name: Seq<char>) -> Option<Table> {
    if exists|k: int| 0 <= k < s.len() && s[k].name@ == name {
        Some(s[named_index(s, name)])
    } else {
        None
    }
}

pub open spec fn named_index(s: Seq<Table>, name: Seq<char>) -> int {
    choose|k: int| 0 <= k < s.len() && s[k].name@ == name
}

/// The whitelist of tables, kept sorted by name (as a `BTreeMap` keyed by name would).
#[derive(Debug)]
pub struct Registry {
    tables: Vec<Table>,
    enums: Vec<(String, Json)>,
    owners: Vec<(String, String)>,
}

impl Registry {
    #[verifier::type_invariant]
    spec fn inv(&self) -> bool {
        sorted_by_name(self.tables@)
    }

    /// The tables, in order of name.
    pub closed spec fn all(&self) -> Seq<Table> {
        self.tables@
    }

    /// The table called `name`.
    pub closed spec fn lookup(&self, name: Seq<char>) -> Option<Table> {
        lookup_in(self.tables@, name)
    }

    pub closed spec fn column_owner_pairs(&self) -> Seq<(Seq<char>, Seq<char>)> {
        pairs_view(self.owners@)
    }

    pub closed spec fn enum_list(&self) -> Seq<(String, Json)> {
        self.enums@
    }

    /// Builds the registry from the table definitions and enum catalogue read from
    /// `schema.json`.  A later definition of a table name replaces an earlier one;
    /// no definition at all is an error.
        pub fn from_tables(tables: Vec<Table>, enums: Vec<(String, Json)>) -> (r: Result<Registry, String>)
        ensures
            match r {
                Err(m) => tables.len() == 0 && m@ == "schema.json 中没有任何表定义"@,
                Ok(reg) => {
                    &&& tables.len() > 0
                    &&& forall|n: Seq<char>| #[trigger] reg.lookup(n) == last_named(tables@, n)
                    &&& table_names(reg.all()).to_set() == table_names(tables@).to_set()
                    &&& reg.column_owner_pairs() == owner_pairs(tables@)
                    &&& reg.enum_list() == enums@
                },
            },
    {
        if tables.len() == 0 {
            return Err(owned("schema.json 中没有任何表定义"));
        }
        let ghost input = tables@;
        let owners = collect_owners(&tables);
        // later definitions win: walk from the back and keep the first one seen per name
        let mut rest = tables;
        let mut sorted: Vec<Table> = Vec::new();
        while rest.len() > 0
            invariant
                rest@ == input.subrange(0, rest.len() as int),
                rest.len() <= input.len(),
                absorbed(sorted@, input, rest.len() as int),
            decreases rest.len(),
        {
            let ghost m = rest.len() - 1;
            let t = rest.pop().unwrap();
            assert(t == input[m]);
            absorb(&mut sorted, t, Ghost(input), Ghost(m));
        }
        proof {
            lemma_absorbed_done(sorted@, input);
        }
        let reg = Registry { tables: sorted, enums, owners };
        Ok(reg)
    }

    /// The table called `name`, or 40004 listing every table name in order.
    pub fn table(&self, name: &str) -> (r: Result<&Table, ApiError>)
        ensures
            match r {
                Ok(t) => self.lookup(name@) == Some(*t),
                Err(e) => self.lookup(name@) is None && e@ == e_unknown_table(
                    name@,
                    table_names(self.all()),
                ),
            },
    {
        proof {
            use_type_invariant(self);
            lemma_sorted(self.tables@);
        }
        let mut i: usize = 0;
        while i < self.tables.len()
            invariant
                i <= self.tables.len(),
                forall|k: int| 0 <= k < i ==> self.tables@[k].name@ != name@,
            decreases self.tables.len() - i,
        {
            if str_eq(self.tables[i].name.as_str(), name) {
                proof {
                    use_type_invariant(self);
                    lemma_sorted(self.tables@);
                    assert(self.tables@[i as int].name@ == name@);
                }
                return Ok(&self.tables[i]);
            }
            i += 1;
        }
        assert(!table_names(self.all()).contains(name@)) by {
            if table_names(self.all()).contains(name@) {
                let k = choose|k: int| 0 <= k < table_names(self.all()).len() && table_names(self.all())[k] == name@;
                assert(self.tables@[k].name@ == name@);
            }
        }
        let mut allowed: Vec<String> = Vec::new();
        let mut j: usize = 0;
        while j < self.tables.len()
            invariant
                j <= self.tables.len(),
                allowed.len() == j,
                forall|k: int| 0 <= k < j ==> #[trigger] allowed@[k]@ == self.tables@[k].name@,
            decreases self.tables.len() - j,
        {
            allowed.push(copy_string(&self.tables[j].name));
            j += 1;
        }
        assert(allowed.deep_view() =~= table_names(self.all()));
        Err(ApiError::unknown_table(name, allowed))
    }

    /// All tables, in order of name.
    pub fn tables(&self) -> (r: &Vec<Table>)
        ensures
            r@ == self.all(),
    {
        &self.tables
    }

    pub fn table_count(&self) -> (r: usize)
        ensures
            r == self.all().len(),
    {
        self.tables.len()
    }

    /// The enum catalogue of `schema.json`.
    pub fn enums(&self) -> (r: &Vec<(String, Json)>)
        ensures
            r@ == self.enum_list(),
    {
        &self.enums
    }

    /// The tables that have a column called `column` (for diagnostics).
    pub fn tables_with_column(&self, column: &str) -> (r: Vec<String>)
        ensures
            r.deep_view() == owners_of(self.column_owner_pairs(), column@),
    {
        let mut out: Vec<String> = Vec::new();
        let mut i: usize = 0;
        while i < self.owners.len()
            invariant
                i <= self.owners.len(),
                out.deep_view() == owners_of(
                    self.owners@.subrange(0, i as int).map_values(|p: (String, String)| (p.0@, p.1@)),
                    column@,
                ),
            decreases self.owners.len() - i,
        {
            let ghost sub = self.owners@.subrange(0, i + 1).map_values(|p: (String, String)| (p.0@, p.1@));
            assert(sub.drop_last() =~= self.owners@.subrange(0, i as int).map_values(
                |p: (String, String)| (p.0@, p.1@),
            ));
            if str_eq(self.owners[i].0.as_str(), column) {
                out.push(copy_string(&self.owners[i].1));
                assert(out.deep_view() =~= owners_of(sub, column@));
            }
            i += 1;
        }
        assert(self.owners@.subrange(0, self.owners.len() as int) =~= self.owners@);
        out
    }

    /// Whether `column` is part of the primary key of `table`.
    pub fn is_pk(&self, table: &str, column: &str) -> (r: bool)
        ensures
            r == match self.lookup(table@) {
                Some(t) => t.primary_key.deep_view().contains(column@),
                None => false,
            },
    {
        match self.table(table) {
            Ok(t) => contains_str(&t.primary_key, column),
            Err(_) => false,
        }
    }
}

/// The tables are in strictly increasing order of name, and `lookup` finds each of them.
proof fn lemma_sorted(s: Seq<Table>)
    requires
        sorted_by_name(s),
    ensures
        forall|i: int| 0 <= i < s.len() ==> #[trigger] lookup_in(s, s[i].name@) == Some(s[i]),
        forall|n: Seq<char>| #[trigger] lookup_in(s, n) is None <==> !table_names(s).contains(n),
{
    assert forall|i: int| 0 <= i < s.len() implies #[trigger] lookup_in(s, s[i].name@) == Some(s[i]) by {
        let n = s[i].name@;
        assert(exists|k: int| 0 <= k < s.len() && s[k].name@ == n);
        let c = named_index(s, n);
        assert(lookup_in(s, n) == Some(s[c]));
        if c < i {
            assert(seq_lt(s[c].name@, s[i].name@));
            lemma_lt_irreflexive(n);
        } else if c > i {
            assert(seq_lt(s[i].name@, s[c].name@));
            lemma_lt_irreflexive(n);
        }
    }
    assert forall|n: Seq<char>| #[trigger] lookup_in(s, n) is None <==> !table_names(s).contains(n) by {
        if table_names(s).contains(n) {
            let k = choose|k: int| 0 <= k < table_names(s).len() && table_names(s)[k] == n;
            assert(s[k].name@ == n);
        }
        if exists|k: int| 0 <= k < s.len() && s[k].name@ == n {
            let k = choose|k: int| 0 <= k < s.len() && s[k].name@ == n;
            assert(table_names(s)[k] == n);
        }
    }
}

/// The last table called `n` is the one at index `m` when none after it has that name.
proof fn lemma_last_named_at(s: Seq<Table>, m: int)
    requires
        0 <= m < s.len(),
        forall|j: int| m < j < s.len() ==> s[j].name@ != s[m].name@,
    ensures
        last_named(s, s[m].name@) == Some(s[m]),
        last_index(s, s[m].name@) == m,
    decreases s.len(),
{
    if m < s.len() - 1 {
        assert(s.drop_last()[m] == s[m]);
        lemma_last_named_at(s.drop_last(), m);
    }
}

proof fn lemma_last_named_some(s: Seq<Table>, n: Seq<char>)
    ensures
        last_named(s, n) is Some ==> exists|j: int| 0 <= j < s.len() && s[j].name@ == n,
        last_named(s, n) matches Some(t) ==> t.name@ == n,
    decreases s.len(),
{
    if s.len() > 0 && s.last().name@ != n {
        lemma_last_named_some(s.drop_last(), n);
        if last_named(s, n) is Some {
            let j = choose|j: int| 0 <= j < s.drop_last().len() && s.drop_last()[j].name@ == n;
            assert(s[j].name@ == n);
        }
    }
}

pub open spec fn pairs_view(v: Seq<(String, String)>) -> Seq<(Seq<char>, Seq<char>)> {
    v.map_values(|p: (String, String)| (p.0@, p.1@))
}

/// Index of the last table of `s` called `n`, or -1.
pub open spec fn last_index(s: Seq<Table>, n: Seq<char>) -> int
    decreases s.len(),
{
    if s.len() == 0 {
        -1
    } else if s.last().name@ == n {
        s.len() - 1
    } else {
        last_index(s.drop_last(), n)
    }
}

/// State of the backwards walk over the definitions: `sorted` holds, in order of
/// name, the last definition of each name that occurs at or after index `m`.
pub open spec fn absorbed(sorted: Seq<Table>, input: Seq<Table>, m: int) -> bool {
    &&& sorted_by_name(sorted)
    &&& forall|k: int| 0 <= k < sorted.len() ==> last_named(input, #[trigger] sorted[k].name@)
        == Some(sorted[k]) && m <= last_index(input, sorted[k].name@)
    &&& forall|j: int| m <= j < input.len() ==> table_names(sorted).contains(#[trigger] input[j].name@)
}

fn push_owners(owners: &mut Vec<(String, String)>, t: &Table)
    ensures
        pairs_view(final(owners)@) == pairs_view(old(owners)@) + t.columns@.map_values(
            |c: Column| (c.name@, t.name@),
        ),
{
    let ghost start = owners@;
    let mut j: usize = 0;
    while j < t.columns.len()
        invariant
            j <= t.columns.len(),
            owners@.len() == start.len() + j,
            forall|k: int| 0 <= k < start.len() ==> #[trigger] owners@[k] == start[k],
            forall|k: int| 0 <= k < j ==> #[trigger] owners@[start.len() + k].0@ == t.columns@[k].name@
                && owners@[start.len() + k].1@ == t.name@,
        decreases t.columns.len() - j,
    {
        owners.push((copy_string(&t.columns[j].name), copy_string(&t.name)));
        j += 1;
    }
    let ghost want = pairs_view(start) + t.columns@.map_values(|c: Column| (c.name@, t.name@));
    assert forall|k: int| 0 <= k < owners@.len() implies #[trigger] pairs_view(owners@)[k] == want[k] by {
        if k >= start.len() {
            assert(owners@[start.len() + (k - start.len())].0@ == t.columns@[k - start.len()].name@);
        }
    }
    assert(pairs_view(owners@) =~= want);
}

fn collect_owners(tables: &Vec<Table>) -> (r: Vec<(String, String)>)
    ensures
        pairs_view(r@) == owner_pairs(tables@),
{
    let mut owners: Vec<(String, String)> = Vec::new();
    let mut i: usize = 0;
    while i < tables.len()
        invariant
            i <= tables.len(),
            pairs_view(owners@) == owner_pairs(tables@.subrange(0, i as int)),
        decreases tables.len() - i,
    {
        push_owners(&mut owners, &tables[i]);
        assert(tables@.subrange(0, i + 1).drop_last() =~= tables@.subrange(0, i as int));
        i += 1;
    }
    assert(tables@.subrange(0, tables.len() as int) =~= tables@);
    owners
}

/// One step of the backwards walk: `t` is definition `m`.
fn absorb(sorted: &mut Vec<Table>, t: Table, Ghost(input): Ghost<Seq<Table>>, Ghost(m): Ghost<int>)
    requires
        0 <= m < input.len(),
        t == input[m],
        absorbed(old(sorted)@, input, m + 1),
    ensures
        absorbed(final(sorted)@, input, m),
{
    let mut seen = false;
    let mut p: usize = 0;
    while p < sorted.len()
        invariant
            p <= sorted.len(),
            !seen ==> forall|k: int| 0 <= k < p ==> sorted@[k].name@ != t.name@,
            seen ==> table_names(sorted@).contains(t.name@),
        decreases sorted.len() - p,
    {
        if str_eq(sorted[p].name.as_str(), t.name.as_str()) {
            seen = true;
            assert(table_names(sorted@)[p as int] == t.name@);
        }
        p += 1;
    }
    if !seen {
        let ghost old_sorted = sorted@;
        proof {
            lemma_fresh_is_last(old_sorted, input, m);
        }
        let pos = insert_position(&sorted, &t);
        sorted.insert(pos, t);
        proof {
            assert(sorted@ =~= old_sorted.insert(pos as int, t));
            lemma_absorb_insert(old_sorted, sorted@, pos as int, input, m);
        }
    } else {
        proof {
            lemma_absorb_skip(sorted@, input, m);
        }
    }
}

proof fn lemma_fresh_is_last(sorted: Seq<Table>, input: Seq<Table>, m: int)
    requires
        0 <= m < input.len(),
        absorbed(sorted, input, m + 1),
        forall|k: int| 0 <= k < sorted.len() ==> sorted[k].name@ != input[m].name@,
    ensures
        last_named(input, input[m].name@) == Some(input[m]),
        last_index(input, input[m].name@) == m,
{
    assert forall|j: int| m < j < input.len() implies input[j].name@ != input[m].name@ by {
        if input[j].name@ == input[m].name@ {
            assert(table_names(sorted).contains(input[j].name@));
            let k = choose|k: int| 0 <= k < table_names(sorted).len() && table_names(sorted)[k] == input[j].name@;
            assert(sorted[k].name@ == input[m].name@);
        }
    }
    lemma_last_named_at(input, m);
}

proof fn lemma_absorb_insert(old_sorted: Seq<Table>, sorted: Seq<Table>, pos: int, input: Seq<Table>, m: int)
    requires
        0 <= m < input.len(),
        absorbed(old_sorted, input, m + 1),
        0 <= pos <= old_sorted.len(),
        sorted == old_sorted.insert(pos, input[m]),
        sorted_by_name(sorted),
        last_named(input, input[m].name@) == Some(input[m]),
        last_index(input, input[m].name@) == m,
    ensures
        absorbed(sorted, input, m),
{
    assert forall|k: int| 0 <= k < sorted.len() implies last_named(input, #[trigger] sorted[k].name@)
        == Some(sorted[k]) && m <= last_index(input, sorted[k].name@) by {
        if k < pos {
            assert(sorted[k] == old_sorted[k]);
        } else if k > pos {
            assert(sorted[k] == old_sorted[k - 1]);
        }
    }
    assert forall|j: int| m <= j < input.len() implies table_names(sorted).contains(#[trigger] input[j].name@) by {
        if j == m {
            assert(table_names(sorted)[pos] == input[j].name@);
        } else {
            assert(table_names(old_sorted).contains(input[j].name@));
            let k = choose|k: int| 0 <= k < table_names(old_sorted).len() && table_names(old_sorted)[k] == input[j].name@;
            if k < pos {
                assert(table_names(sorted)[k] == input[j].name@);
            } else {
                assert(table_names(sorted)[k + 1] == input[j].name@);
            }
        }
    }
}

proof fn lemma_absorb_skip(sorted: Seq<Table>, input: Seq<Table>, m: int)
    requires
        0 <= m < input.len(),
        absorbed(sorted, input, m + 1),
        table_names(sorted).contains(input[m].name@),
    ensures
        absorbed(sorted, input, m),
{
}

/// At the end of the backwards walk every name is present with its last definition.
proof fn lemma_absorbed_done(sorted: Seq<Table>, input: Seq<Table>)
    requires
        absorbed(sorted, input, 0),
    ensures
        forall|n: Seq<char>| #[trigger] lookup_in(sorted, n) == last_named(input, n),
        table_names(sorted).to_set() == table_names(input).to_set(),
{
    lemma_sorted(sorted);
    assert forall|n: Seq<char>| #[trigger] lookup_in(sorted, n) == last_named(input, n) by {
        if exists|k: int| 0 <= k < sorted.len() && sorted[k].name@ == n {
            let k = choose|k: int| 0 <= k < sorted.len() && sorted[k].name@ == n;
            assert(lookup_in(sorted, sorted[k].name@) == Some(sorted[k]));
        } else {
            lemma_last_named_some(input, n);
            if last_named(input, n) is Some {
                let j = choose|j: int| 0 <= j < input.len() && input[j].name@ == n;
                assert(table_names(sorted).contains(input[j].name@));
                let k = choose|k: int| 0 <= k < table_names(sorted).len() && table_names(sorted)[k] == n;
                assert(sorted[k].name@ == n);
            }
        }
    }
    assert forall|n: Seq<char>| table_names(sorted).to_set().contains(n)
        <==> table_names(input).to_set().contains(n) by {
        if table_names(sorted).contains(n) {
            let k = choose|k: int| 0 <= k < table_names(sorted).len() && table_names(sorted)[k] == n;
            assert(sorted[k].name@ == n);
            lemma_last_named_some(input, n);
            let j = choose|j: int| 0 <= j < input.len() && input[j].name@ == n;
            assert(table_names(input)[j] == n);
        }
        if table_names(input).contains(n) {
            let j = choose|j: int| 0 <= j < table_names(input).len() && table_names(input)[j] == n;
            assert(input[j].name@ == n);
            assert(table_names(sorted).contains(input[j].name@));
        }
    }
    assert(table_names(sorted).to_set() =~= table_names(input).to_set());
}

/// Where `t` goes in the sorted `v`: after every smaller name.
fn insert_position(v: &Vec<Table>, t: &Table) -> (p: usize)
    requires
        sorted_by_name(v@),
        forall|k: int| 0 <= k < v@.len() ==> v@[k].name@ != t.name@,
    ensures
        p <= v.len(),
        sorted_by_name(v@.insert(p as int, *t)),
{
    let mut p: usize = 0;
    while p < v.len() && str_lt(v[p].name.as_str(), t.name.as_str())
        invariant
            p <= v.len(),
            forall|k: int| 0 <= k < p ==> seq_lt(v@[k].name@, t.name@),
        decreases v.len() - p,
    {
        p += 1;
    }
    proof {
        let w = v@.insert(p as int, *t);
        if p < v.len() {
            lemma_lt_total(v@[p as int].name@, t.name@);
        }
        assert forall|i: int, j: int| 0 <= i < j < w.len() implies seq_lt(#[trigger] w[i].name@, #[trigger] w[j].name@) by {
            if j < p {
                assert(w[i] == v@[i] && w[j] == v@[j]);
            } else if j == p {
                assert(w[i] == v@[i]);
            } else if i == p {
                assert(w[j] == v@[j - 1]);
                if j - 1 > p {
                    lemma_lt_transitive(t.name@, v@[p as int].name@, v@[j - 1].name@);
                }
            } else if i < p {
                assert(w[i] == v@[i] && w[j] == v@[j - 1]);
                if j - 1 >= p {
                    lemma_lt_transitive(v@[i].name@, t.name@, v@[p as int].name@);
                    if j - 1 > p {
                        lemma_lt_transitive(v@[i].name@, v@[p as int].name@, v@[j - 1].name@);
                    }
                }
            } else {
                assert(w[i] == v@[i - 1] && w[j] == v@[j - 1]);
            }
        }
    }
    p
}

// ---------------------------------------------------------------------------
// The table list
// ---------------------------------------------------------------------------

/// What the table list says of one table.
pub open spec fn summary_entry(t: Table) -> JsonV {
    JsonV::Object(
        seq![
            ("name"@, JsonV::Str(t.name@)),
            ("path"@, JsonV::Str("/api/v1/"@ + t.name@)),
            ("primary_key"@, str_array(t.primary_key.deep_view())),
            ("unique_keys"@, JsonV::Array(t.unique_keys.deep_view().map_values(|k: Seq<Seq<char>>| str_array(k)))),
            ("column_count"@, count_json(t.columns@.len())),
        ],
    )
}

/// Index of the group `k`, searching from `i`.
pub open spec fn group_index(g: Seq<(Seq<char>, Seq<JsonV>)>, k: Seq<char>, i: int) -> Option<int>
    decreases g.len() - i,
{
    if i < 0 || i >= g.len() {
        None
    } else if g[i].0 == k {
        Some(i)
    } else {
        group_index(g, k, i + 1)
    }
}

/// `v` added last to the group `k`, which is created when missing.
pub open spec fn group_push(g: Seq<(Seq<char>, Seq<JsonV>)>, k: Seq<char>, v: JsonV) -> Seq<(Seq<char>, Seq<JsonV>)> {
    match group_index(g, k, 0) {
        Some(i) => g.update(i, (k, g[i].1.push(v))),
        None => g.push((k, seq![v])),
    }
}

/// The tables by group, each group in the order of the tables.
pub open spec fn summary_groups(ts: Seq<Table>) -> Seq<(Seq<char>, Seq<JsonV>)>
    decreases ts.len(),
{
    if ts.len() == 0 {
        Seq::empty()
    } else {
        group_push(summary_groups(ts.drop_last()), ts.last().group@, summary_entry(ts.last()))
    }
}

/// The table list: how many tables there are, and the tables by group.
pub open spec fn tables_summary_spec(ts: Seq<Table>) -> JsonV {
    JsonV::Object(
        seq![
            ("table_count"@, count_json(ts.len())),
            (
                "groups"@,
                JsonV::Object(summary_groups(ts).map_values(|e: (Seq<char>, Seq<JsonV>)| (e.0, JsonV::Array(e.1)))),
            ),
        ],
    )
}

fn summary_entry_exec(t: &Table) -> (r: Json)
    ensures
        r@ == summary_entry(*t),
{
    let mut uks: Vec<Json> = Vec::new();
    let mut i: usize = 0;
    while i < t.unique_keys.len()
        invariant
            i <= t.unique_keys.len(),
            uks.len() == i,
            forall|q: int| 0 <= q < i ==> #[trigger] uks@[q]@ == str_array(t.unique_keys.deep_view()[q]),
        decreases t.unique_keys.len() - i,
    {
        assert(t.unique_keys.deep_view()[i as int] == t.unique_keys@[i as int].deep_view());
        uks.push(string_array(&t.unique_keys[i]));
        i += 1;
    }
    proof {
        lemma_jv_seq(uks@);
    }
    assert forall|q: int| 0 <= q < uks.len() implies #[trigger] jv_seq(uks@)[q] == str_array(t.unique_keys.deep_view()[q]) by {
        assert(uks@[q]@ == str_array(t.unique_keys.deep_view()[q]));
        assert(jv_seq(uks@)[q] == crate::json::jv(uks@[q]));
    }
    assert(jv_seq(uks@) =~= t.unique_keys.deep_view().map_values(|k: Seq<Seq<char>>| str_array(k)));
    let mut m: Vec<(String, Json)> = Vec::new();
    m.push((owned("name"), Json::Str(copy_string(&t.name))));
    m.push((owned("path"), Json::Str(cat("/api/v1/", t.name.as_str()))));
    m.push((owned("primary_key"), string_array(&t.primary_key)));
    m.push((owned("unique_keys"), Json::Array(uks)));
    m.push((owned("column_count"), count_value(t.columns.len())));
    proof {
        lemma_jv_obj(m@);
    }
    assert(jv_obj(m@) =~= seq![
        ("name"@, JsonV::Str(t.name@)),
        ("path"@, JsonV::Str("/api/v1/"@ + t.name@)),
        ("primary_key"@, str_array(t.primary_key.deep_view())),
        ("unique_keys"@, JsonV::Array(t.unique_keys.deep_view().map_values(|k: Seq<Seq<char>>| str_array(k)))),
        ("column_count"@, count_json(t.columns@.len())),
    ]);
    Json::Object(m)
}

pub open spec fn groups_json(g: Seq<(String, Vec<Json>)>) -> Seq<(Seq<char>, Seq<JsonV>)> {
    g.map_values(|e: (String, Vec<Json>)| (e.0@, jv_seq(e.1@)))
}

fn group_push_exec(g: &mut Vec<(String, Vec<Json>)>, key: &String, v: Json)
    ensures
        groups_json(final(g)@) == group_push(groups_json(old(g)@), key@, v@),
{
    let ghost gv = groups_json(g@);
    let mut j: usize = 0;
    while j < g.len() && !str_eq(g[j].0.as_str(), key.as_str())
        invariant
            j <= g.len(),
            g@ == old(g)@,
            gv == groups_json(g@),
            group_index(gv, key@, 0) == group_index(gv, key@, j as int),
        decreases g.len() - j,
    {
        j += 1;
    }
    if j < g.len() {
        let ghost g0 = g@;
        let mut e = g.remove(j);
        assert(e == g0[j as int]);
        let ghost ev = jv_seq(e.1@);
        e.1.push(v);
        proof {
            crate::json::lemma_jv_seq_push(g0[j as int].1@, e.1@.last());
            assert(g0[j as int].1@.push(e.1@.last()) =~= e.1@);
        }
        g.insert(j, e);
        assert(groups_json(g@) =~= gv.update(j as int, (key@, gv[j as int].1.push(v@))));
    } else {
        let ghost g0 = g@;
        let mut one: Vec<Json> = Vec::new();
        one.push(v);
        proof {
            crate::json::lemma_jv_seq_push(Seq::empty(), one@[0]);
            assert(Seq::<Json>::empty().push(one@[0]) =~= one@);
        }
        g.push((copy_string(key), one));
        assert(groups_json(g@) =~= gv.push((key@, seq![v@])));
    }
}

/// The table list of the whitelist (`GET /meta/tables`).
pub fn tables_summary(reg: &Registry) -> (r: Json)
    ensures
        r@ == tables_summary_spec(reg.all()),
{
    let ts = reg.tables();
    let mut g: Vec<(String, Vec<Json>)> = Vec::new();
    let mut i: usize = 0;
    assert(ts@.subrange(0, 0) =~= Seq::<Table>::empty());
    assert(groups_json(g@) =~= Seq::<(Seq<char>, Seq<JsonV>)>::empty());
    while i < ts.len()
        invariant
            i <= ts.len(),
            groups_json(g@) == summary_groups(ts@.subrange(0, i as int)),
        decreases ts.len() - i,
    {
        let ghost sub = ts@.subrange(0, i + 1);
        assert(sub.drop_last() =~= ts@.subrange(0, i as int));
        let e = summary_entry_exec(&ts[i]);
        group_push_exec(&mut g, &ts[i].group, e);
        i += 1;
    }
    assert(ts@.subrange(0, ts.len() as int) =~= ts@);
    let ghost gv = groups_json(g@);
    let mut members: Vec<(String, Json)> = Vec::new();
    let mut k: usize = 0;
    while k < g.len()
        invariant
            k <= g.len(),
            gv == groups_json(g@),
            members.len() == k,
            forall|q: int| 0 <= q < k ==> #[trigger] members@[q].0@ == gv[q].0 && members@[q].1@ == JsonV::Array(gv[q].1),
        decreases g.len() - k,
    {
        members.push((copy_string(&g[k].0), Json::Array(clone_json_vec(&g[k].1))));
        k += 1;
    }
    proof {
        lemma_jv_obj(members@);
    }
    assert(jv_obj(members@) =~= gv.map_values(|e: (Seq<char>, Seq<JsonV>)| (e.0, JsonV::Array(e.1))));
    let mut top: Vec<(String, Json)> = Vec::new();
    top.push((owned("table_count"), count_value(ts.len())));
    top.push((owned("groups"), Json::Object(members)));
    proof {
        lemma_jv_obj(top@);
    }
    assert(jv_obj(top@) =~= seq![
        ("table_count"@, count_json(reg.all().len())),
        (
            "groups"@,
            JsonV::Object(summary_groups(reg.all()).map_values(|e: (Seq<char>, Seq<JsonV>)| (e.0, JsonV::Array(e.1)))),
        ),
    ]);
    Json::Object(top)
}

} // verus!
