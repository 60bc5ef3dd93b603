//! Finding a loaded module by name, the decisions of each platform's
//! lookup.
use vstd::prelude::*;

use crate::bytes::{bytes_equal, copy_range};
use crate::mapping::MappingInfo;
use crate::maps::{fold_lines, parse_maps, views_of, MappingView};
use crate::module_memory::ModuleMemory;
use crate::process_reader::ProcessReader;

verus! {

/// Index of the first mapping named exactly `name`.
pub open spec fn first_named_mapping(ms: Seq<MappingInfo>, name: Seq<u8>, k: int) -> Option<int>
    decreases ms.len() - k,
{
    if k < 0 || k >= ms.len() {
        None
    } else if ms[k].name matches Some(n) && n@ == name {
        Some(k)
    } else {
        first_named_mapping(ms, name, k + 1)
    }
}

/// Index of the first view named exactly `name`.
pub open spec fn first_named_view(vs: Seq<MappingView>, name: Seq<u8>, k: int) -> Option<int>
    decreases vs.len() - k,
{
    if k < 0 || k >= vs.len() {
        None
    } else if vs[k].name == Some(name) {
        Some(k)
    } else {
        first_named_view(vs, name, k + 1)
    }
}

proof fn lemma_first_named_views(ms: Seq<MappingInfo>, name: Seq<u8>, k: int)
    requires
        0 <= k,
    ensures
        first_named_mapping(ms, name, k) == first_named_view(views_of(ms), name, k),
        match first_named_mapping(ms, name, k) {
            Some(i) => k <= i < ms.len(),
            None => true,
        },
    decreases ms.len() - k,
{
    if k < ms.len() {
        lemma_first_named_views(ms, name, k + 1);
    }
}

/// The start of the first mapping named `module_name` (a full path).
pub fn find_module_start(mappings: &Vec<MappingInfo>, module_name: &Vec<u8>) -> (r: Option<usize>)
    ensures
        match first_named_mapping(mappings@, module_name@, 0) {
            Some(i) => r == Some(mappings@[i].start_address),
            None => r is None,
        },
{
    let mut k: usize = 0;
    while k < mappings.len()
        invariant
            k <= mappings@.len(),
            first_named_mapping(mappings@, module_name@, 0) == first_named_mapping(
                mappings@,
                module_name@,
                k as int,
            ),
        decreases mappings@.len() - k,
    {
        match &mappings[k].name {
            Some(n) => {
                if bytes_equal(n.as_slice(), module_name.as_slice()) {
                    return Some(mappings[k].start_address);
                }
            },
            None => {},
        }
        k = k + 1;
    }
    None
}

/// Why a module could not be found.
#[derive(Clone, Copy, Debug, PartialEq, Eq, Structural)]
pub enum FindModuleError {
    ModuleNotFound,
}

impl ProcessReader {
    /// The memory of the module mapped from the file `module_name` (a full
    /// path), given the contents of the target's `/proc/<pid>/maps`: it
    /// starts at the first mapping with that name.
    pub fn find_module<'a>(&'a mut self, maps: &[u8], module_name: &Vec<u8>) -> (r: Result<
        ModuleMemory<'a>,
        FindModuleError,
    >)
        ensures
            ({
                let vs = fold_lines(maps@, 0, Seq::empty(), 0);
                match first_named_view(vs, module_name@, 0) {
                    Some(i) => r matches Ok(ModuleMemory::Process { start_address, .. })
                        && start_address == vs[i].start,
                    None => r == Err::<ModuleMemory<'a>, FindModuleError>(
                        FindModuleError::ModuleNotFound,
                    ),
                }
            }),
    {
        let mappings = parse_maps(maps, 0);
        proof {
            lemma_first_named_views(mappings@, module_name@, 0);
        }
        match find_module_start(&mappings, module_name) {
            Some(start) => Ok(ModuleMemory::from_process(self, start)),
            None => Err(FindModuleError::ModuleNotFound),
        }
    }
}

/// The part of `path` after its last `/` (all of it without one).
pub open spec fn basename(path: Seq<u8>) -> Seq<u8>
    decreases path.len(),
{
    if path.len() == 0 {
        path
    } else if path.last() == 0x2f {
        Seq::empty()
    } else {
        basename(path.drop_last()).push(path.last())
    }
}

/// Whether the file name of `path` (a dyld image path, without its nul) is
/// `module_name`.
pub fn image_name_matches(path: &Vec<u8>, module_name: &Vec<u8>) -> (r: bool)
    ensures
        r == (basename(path@) == module_name@),
{
    let mut start: usize = path.len();
    proof {
        assert(path@.subrange(0, path@.len() as int) =~= path@);
        assert(path@.subrange(path@.len() as int, path@.len() as int) =~= Seq::<u8>::empty());
        assert(basename(path@) + Seq::<u8>::empty() =~= basename(path@));
    }
    while start > 0 && path[start - 1] != 0x2f
        invariant
            start <= path@.len(),
            basename(path@) == basename(path@.subrange(0, start as int)) + path@.subrange(
                start as int,
                path@.len() as int,
            ),
        decreases start,
    {
        proof {
            let p = path@.subrange(0, start as int);
            assert(p.drop_last() =~= path@.subrange(0, start - 1));
            assert(p.last() == path@[start - 1]);
            assert(basename(p) == basename(p.drop_last()).push(p.last()));
            assert(basename(p.drop_last()).push(p.last()) + path@.subrange(
                start as int,
                path@.len() as int,
            ) =~= basename(p.drop_last()) + path@.subrange(start - 1, path@.len() as int));
        }
        start = start - 1;
    }
    proof {
        let p = path@.subrange(0, start as int);
        assert(basename(p) =~= Seq::<u8>::empty());
    }
    let tail = copy_range(path.as_slice(), start, path.len());
    assert(basename(path@) =~= tail@);
    bytes_equal(tail.as_slice(), module_name.as_slice())
}

/// `c` in ASCII lower case.
pub open spec fn ascii_lower(c: u16) -> u16 {
    if 0x41 <= c <= 0x5a {
        (c + 0x20) as u16
    } else {
        c
    }
}

/// The names are equal up to ASCII case.
pub open spec fn eq_ignore_ascii_case(a: Seq<u16>, b: Seq<u16>) -> bool {
    a.len() == b.len() && forall|i: int| 0 <= i < a.len() ==> ascii_lower(a[i]) == ascii_lower(b[i])
}

/// Whether a module's base name (UTF-16) is `module_name`, up to ASCII
/// case.
pub fn module_name_matches(name: &Vec<u16>, module_name: &Vec<u16>) -> (r: bool)
    ensures
        r == eq_ignore_ascii_case(name@, module_name@),
{
    if name.len() != module_name.len() {
        return false;
    }
    let mut i: usize = 0;
    while i < name.len()
        invariant
            i <= name@.len(),
            name@.len() == module_name@.len(),
            forall|j: int| 0 <= j < i ==> ascii_lower(name@[j]) == ascii_lower(module_name@[j]),
        decreases name@.len() - i,
    {
        let a = name[i];
        let b = module_name[i];
        let la = if 0x41 <= a && a <= 0x5a {
            a + 0x20
        } else {
            a
        };
        let lb = if 0x41 <= b && b <= 0x5a {
            b + 0x20
        } else {
            b
        };
        if la != lb {
            return false;
        }
        i = i + 1;
    }
    true
}

/// What to do after asking for the module list with room for `capacity`
/// handles of `handle_size` bytes each.
#[derive(Clone, Copy, Debug, PartialEq, Eq, Structural)]
pub enum ModuleListStep {
    /// The list did not fit: ask again with room for this many handles.
    Grow(usize),
    /// The call failed.
    Failed,
    /// The list is complete and holds this many handles.
    Done(usize),
}

/// The next step of enumerating a process's modules, given the room the
/// call had (`buffer_size` bytes), the size it reported as needed
/// (`required_size`) and whether it succeeded.
pub fn module_list_step(buffer_size: u32, required_size: u32, succeeded: bool, handle_size: usize) -> (r: ModuleListStep)
    requires
        handle_size > 0,
    ensures
        required_size > buffer_size ==> r == ModuleListStep::Grow(
            (required_size as int / handle_size as int) as usize,
        ),
        required_size <= buffer_size && !succeeded ==> r == ModuleListStep::Failed,
        required_size <= buffer_size && succeeded ==> r == ModuleListStep::Done(
            (required_size as int / handle_size as int) as usize,
        ),
{
    let count = required_size as usize / handle_size;
    if required_size > buffer_size {
        ModuleListStep::Grow(count)
    } else if !succeeded {
        ModuleListStep::Failed
    } else {
        ModuleListStep::Done(count)
    }
}

} // verus!
