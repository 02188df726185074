//! What a presentation of the results needs besides the entities: the
//! labels of the kinds, the file categories of a whole tree, and their
//! counts.

use vstd::prelude::*;
use crate::models::{DirectoryNode, FileNode, FileType, ImportType};

verus! {

/// The name under which a kind of import is shown.
pub open spec fn import_type_name(kind: ImportType) -> Seq<char> {
    match kind {
        ImportType::Component => "Component"@,
        ImportType::Service => "Service"@,
        ImportType::Module => "Module"@,
        ImportType::Directive => "Directive"@,
        ImportType::Pipe => "Pipe"@,
        ImportType::Guard => "Guard"@,
        ImportType::Resolver => "Resolver"@,
        ImportType::Model => "Model"@,
        ImportType::Other => "Other"@,
    }
}

/// The name under which a kind of import is shown.
pub fn import_type_label(kind: ImportType) -> (label: &'static str)
    ensures
        label@ == import_type_name(kind),
{
    match kind {
        ImportType::Component => "Component",
        ImportType::Service => "Service",
        ImportType::Module => "Module",
        ImportType::Directive => "Directive",
        ImportType::Pipe => "Pipe",
        ImportType::Guard => "Guard",
        ImportType::Resolver => "Resolver",
        ImportType::Model => "Model",
        ImportType::Other => "Other",
    }
}

/// The short mark that stands for a file category in a tree listing.
pub open spec fn file_type_mark(file_type: FileType) -> Seq<char> {
    match file_type {
        FileType::Component => "C"@,
        FileType::Service => "S"@,
        FileType::Module => "M"@,
        FileType::Directive => "D"@,
        FileType::Pipe => "P"@,
        FileType::Guard => "G"@,
        FileType::Resolver => "R"@,
        FileType::Model => "I"@,
        FileType::Config => "CF"@,
        FileType::Style => "ST"@,
        FileType::Test => "T"@,
        FileType::Template => "H"@,
        FileType::NgRxAction => "NGA"@,
        FileType::NgRxReducer => "NGR"@,
        FileType::NgRxEffect => "NGE"@,
        FileType::NgRxSelector => "NGS"@,
        FileType::NgRxOther => "NGO"@,
        FileType::Other => "O"@,
    }
}

/// The short mark that stands for a file category in a tree listing.
pub fn file_type_indicator(file_type: FileType) -> (mark: &'static str)
    ensures
        mark@ == file_type_mark(file_type),
{
    match file_type {
        FileType::Component => "C",
        FileType::Service => "S",
        FileType::Module => "M",
        FileType::Directive => "D",
        FileType::Pipe => "P",
        FileType::Guard => "G",
        FileType::Resolver => "R",
        FileType::Model => "I",
        FileType::Config => "CF",
        FileType::Style => "ST",
        FileType::Test => "T",
        FileType::Template => "H",
        FileType::NgRxAction => "NGA",
        FileType::NgRxReducer => "NGR",
        FileType::NgRxEffect => "NGE",
        FileType::NgRxSelector => "NGS",
        FileType::NgRxOther => "NGO",
        FileType::Other => "O",
    }
}

/// The name under which a file category is counted in a summary.
pub open spec fn file_type_name(file_type: FileType) -> Seq<char> {
    match file_type {
        FileType::Component => "Component"@,
        FileType::Service => "Service"@,
        FileType::Module => "Module"@,
        FileType::Directive => "Directive"@,
        FileType::Pipe => "Pipe"@,
        FileType::Template => "Template"@,
        FileType::Guard => "Guard"@,
        FileType::Resolver => "Resolver"@,
        FileType::Model => "Model"@,
        FileType::Config => "Config"@,
        FileType::Style => "Style"@,
        FileType::Test => "Test"@,
        FileType::NgRxAction => "NgRxAction"@,
        FileType::NgRxReducer => "NgRxReducer"@,
        FileType::NgRxEffect => "NgRxEffect"@,
        FileType::NgRxSelector => "NgRxSelector"@,
        FileType::NgRxOther => "NgRxOther"@,
        FileType::Other => "Other"@,
    }
}

/// The name under which a file category is counted in a summary.
pub fn file_type_label(file_type: FileType) -> (label: &'static str)
    ensures
        label@ == file_type_name(file_type),
{
    match file_type {
        FileType::Component => "Component",
        FileType::Service => "Service",
        FileType::Module => "Module",
        FileType::Directive => "Directive",
        FileType::Pipe => "Pipe",
        FileType::Template => "Template",
        FileType::Guard => "Guard",
        FileType::Resolver => "Resolver",
        FileType::Model => "Model",
        FileType::Config => "Config",
        FileType::Style => "Style",
        FileType::Test => "Test",
        FileType::NgRxAction => "NgRxAction",
        FileType::NgRxReducer => "NgRxReducer",
        FileType::NgRxEffect => "NgRxEffect",
        FileType::NgRxSelector => "NgRxSelector",
        FileType::NgRxOther => "NgRxOther",
        FileType::Other => "Other",
    }
}

/// The place of a file category in the order of the categories.
pub open spec fn file_type_rank(file_type: FileType) -> int {
    match file_type {
        FileType::Component => 0,
        FileType::Service => 1,
        FileType::Module => 2,
        FileType::Directive => 3,
        FileType::Pipe => 4,
        FileType::Template => 5,
        FileType::Guard => 6,
        FileType::Resolver => 7,
        FileType::Model => 8,
        FileType::Config => 9,
        FileType::Style => 10,
        FileType::Test => 11,
        FileType::NgRxAction => 12,
        FileType::NgRxReducer => 13,
        FileType::NgRxEffect => 14,
        FileType::NgRxSelector => 15,
        FileType::NgRxOther => 16,
        FileType::Other => 17,
    }
}

/// The number of file categories.
pub const FILE_TYPE_COUNT: usize = 18;

fn rank_of(file_type: FileType) -> (rank: usize)
    ensures
        rank == file_type_rank(file_type),
        rank < FILE_TYPE_COUNT,
{
    match file_type {
        FileType::Component => 0,
        FileType::Service => 1,
        FileType::Module => 2,
        FileType::Directive => 3,
        FileType::Pipe => 4,
        FileType::Template => 5,
        FileType::Guard => 6,
        FileType::Resolver => 7,
        FileType::Model => 8,
        FileType::Config => 9,
        FileType::Style => 10,
        FileType::Test => 11,
        FileType::NgRxAction => 12,
        FileType::NgRxReducer => 13,
        FileType::NgRxEffect => 14,
        FileType::NgRxSelector => 15,
        FileType::NgRxOther => 16,
        FileType::Other => 17,
    }
}

fn type_at(rank: usize) -> (file_type: FileType)
    requires
        rank < FILE_TYPE_COUNT,
    ensures
        file_type_rank(file_type) == rank,
{
    if rank == 0 {
        FileType::Component
    } else if rank == 1 {
        FileType::Service
    } else if rank == 2 {
        FileType::Module
    } else if rank == 3 {
        FileType::Directive
    } else if rank == 4 {
        FileType::Pipe
    } else if rank == 5 {
        FileType::Template
    } else if rank == 6 {
        FileType::Guard
    } else if rank == 7 {
        FileType::Resolver
    } else if rank == 8 {
        FileType::Model
    } else if rank == 9 {
        FileType::Config
    } else if rank == 10 {
        FileType::Style
    } else if rank == 11 {
        FileType::Test
    } else if rank == 12 {
        FileType::NgRxAction
    } else if rank == 13 {
        FileType::NgRxReducer
    } else if rank == 14 {
        FileType::NgRxEffect
    } else if rank == 15 {
        FileType::NgRxSelector
    } else if rank == 16 {
        FileType::NgRxOther
    } else {
        FileType::Other
    }
}

/// The categories of the files of a sequence of file nodes, in order.
pub open spec fn types_of_files(files: Seq<FileNode>) -> Seq<FileType> {
    Seq::new(files.len(), |i: int| files[i].file_type)
}

/// The categories of all files of the first `n` directories, each
/// directory with everything below it.
pub open spec fn types_in_directories(directories: Seq<DirectoryNode>, n: int) -> Seq<FileType>
    decreases directories, n,
{
    if n <= 0 || n > directories.len() {
        Seq::<FileType>::empty()
    } else {
        types_in_directories(directories, n - 1) + types_in_tree(directories[n - 1])
    }
}

/// The categories of all files of a tree: those of the directory's own
/// files, then those of each of its directories in turn.
pub open spec fn types_in_tree(dir: DirectoryNode) -> Seq<FileType>
    decreases dir,
{
    types_of_files(dir.files@) + types_in_directories(
        dir.directories@,
        dir.directories@.len() as int,
    )
}

/// Adds to `out` the categories of all files of the tree under `dir`: the
/// directory's own files first, then each of its directories in turn.
pub fn collect_all_files(dir: &DirectoryNode, out: &mut Vec<FileType>)
    ensures
        final(out)@ == old(out)@ + types_in_tree(*dir),
    decreases dir,
{
    let ghost start = out@;
    let mut f: usize = 0;
    while f < dir.files.len()
        invariant
            f <= dir.files.len(),
            out@ == start + types_of_files(dir.files@).subrange(0, f as int),
        decreases dir.files.len() - f,
    {
        out.push(dir.files[f].file_type);
        f += 1;
        assert(types_of_files(dir.files@).subrange(0, f as int) == types_of_files(
            dir.files@,
        ).subrange(0, f - 1).push(dir.files@[f - 1].file_type));
    }
    assert(types_of_files(dir.files@).subrange(0, dir.files@.len() as int) == types_of_files(
        dir.files@,
    ));
    let ghost own = out@;
    let mut d: usize = 0;
    assert(own + Seq::<FileType>::empty() == own);
    while d < dir.directories.len()
        invariant
            d <= dir.directories.len(),
            own == start + types_of_files(dir.files@),
            out@ == own + types_in_directories(dir.directories@, d as int),
        decreases dir.directories.len() - d,
    {
        let ghost before = out@;
        collect_all_files(&dir.directories[d], out);
        d += 1;
        assert(out@ == own + (types_in_directories(dir.directories@, d - 1) + types_in_tree(
            dir.directories@[d - 1],
        )));
    }
    assert(out@ == start + (types_of_files(dir.files@) + types_in_directories(
        dir.directories@,
        dir.directories@.len() as int,
    )));
}

/// How often `file_type` occurs in `types`.
pub open spec fn occurrences(types: Seq<FileType>, file_type: FileType) -> nat
    decreases types.len(),
{
    if types.len() == 0 {
        0
    } else {
        occurrences(types.drop_last(), file_type) + if types.last() == file_type {
            1nat
        } else {
            0nat
        }
    }
}

proof fn lemma_occurrences_bounded(types: Seq<FileType>, file_type: FileType)
    ensures
        occurrences(types, file_type) <= types.len(),
    decreases types.len(),
{
    if types.len() > 0 {
        lemma_occurrences_bounded(types.drop_last(), file_type);
    }
}

/// The counts of a summary: for each category that occurs in `types`, in
/// the order of the categories, how often it occurs.
pub fn count_file_types(types: &Vec<FileType>) -> (counts: Vec<(FileType, usize)>)
    ensures
        forall|i: int|
            0 <= i < counts@.len() ==> (#[trigger] counts@[i]).1 > 0 && counts@[i].1 == occurrences(
                types@,
                counts@[i].0,
            ),
        forall|i: int, j: int|
            0 <= i < j < counts@.len() ==> file_type_rank((#[trigger] counts@[i]).0)
                < file_type_rank((#[trigger] counts@[j]).0),
        forall|file_type: FileType|
            occurrences(types@, file_type) > 0 ==> exists|i: int|
                0 <= i < counts@.len() && (#[trigger] counts@[i]).0 == file_type,
{
    let mut tally: Vec<usize> = Vec::new();
    let mut r: usize = 0;
    while r < FILE_TYPE_COUNT
        invariant
            r <= FILE_TYPE_COUNT,
            tally@.len() == r,
            forall|k: int| 0 <= k < r ==> tally@[k] == 0,
        decreases FILE_TYPE_COUNT - r,
    {
        tally.push(0);
        r += 1;
    }
    let mut i: usize = 0;
    while i < types.len()
        invariant
            i <= types.len(),
            tally@.len() == FILE_TYPE_COUNT,
            forall|file_type: FileType|
                tally@[#[trigger] file_type_rank(file_type)] == occurrences(
                    types@.subrange(0, i as int),
                    file_type,
                ),
        decreases types.len() - i,
    {
        let here = types[i];
        let rank = rank_of(here);
        proof {
            let upto = types@.subrange(0, i + 1);
            assert(upto.drop_last() == types@.subrange(0, i as int));
            assert(upto.last() == here);
            lemma_occurrences_bounded(types@.subrange(0, i as int), here);
        }
        let seen = tally[rank];
        tally.set(rank, seen + 1);
        i += 1;
    }
    assert(types@.subrange(0, types@.len() as int) == types@);
    let mut counts: Vec<(FileType, usize)> = Vec::new();
    let mut r: usize = 0;
    while r < FILE_TYPE_COUNT
        invariant
            r <= FILE_TYPE_COUNT,
            tally@.len() == FILE_TYPE_COUNT,
            forall|file_type: FileType|
                tally@[#[trigger] file_type_rank(file_type)] == occurrences(types@, file_type),
            forall|i: int|
                0 <= i < counts@.len() ==> (#[trigger] counts@[i]).1 > 0 && counts@[i].1
                    == occurrences(types@, counts@[i].0) && file_type_rank(counts@[i].0) < r,
            forall|i: int, j: int|
                0 <= i < j < counts@.len() ==> file_type_rank((#[trigger] counts@[i]).0)
                    < file_type_rank((#[trigger] counts@[j]).0),
            forall|file_type: FileType|
                occurrences(types@, file_type) > 0 && file_type_rank(file_type) < r ==> exists|
                    i: int,
                |
                    0 <= i < counts@.len() && (#[trigger] counts@[i]).0 == file_type,
        decreases FILE_TYPE_COUNT - r,
    {
        let file_type = type_at(r);
        let ghost before = counts@;
        if tally[r] > 0 {
            counts.push((file_type, tally[r]));
        }
        proof {
            assert forall|other: FileType|
                occurrences(types@, other) > 0 && file_type_rank(other) < r + 1 implies exists|
                i: int,
            |
                0 <= i < counts@.len() && (#[trigger] counts@[i]).0 == other by {
                if file_type_rank(other) < r {
                    let i = choose|i: int| 0 <= i < before.len() && (#[trigger] before[i]).0 == other;
                    assert(counts@[i] == before[i]);
                } else {
                    assert(other == file_type);
                    assert(tally@[file_type_rank(other)] > 0);
                    assert(counts@[before.len() as int].0 == other);
                }
            }
        }
        r += 1;
    }
    assert forall|file_type: FileType| occurrences(types@, file_type) > 0 implies exists|i: int|
        0 <= i < counts@.len() && (#[trigger] counts@[i]).0 == file_type by {
        assert(file_type_rank(file_type) < FILE_TYPE_COUNT);
    }
    counts
}

} // verus!
