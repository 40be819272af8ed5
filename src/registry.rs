//! The host-function registry: a declarative table of modules and functions,
//! and the validation of its export codes.
use vstd::prelude::*;

verus! {

/// The export-code alphabet, in enumeration order.
pub const EXPORT_ALPHABET: &'static str = "_0123456789abcdefghijklmnopqrstuvwxyzABCDEFGHIJKLMNOPQRSTUVWXYZ";

/// Number of symbols in the export-code alphabet.
pub const ALPHABET_LEN: usize = 63;

/// Most functions one module can hold: every one- and two-character code.
pub const MAX_FUNCTIONS_PER_MODULE: usize = 4032;

/// One argument of a host function: its name and its type.
pub struct Arg {
    pub name: String,
    pub ty: String,
}

/// One host function as declared in the table.
pub struct Function {
    pub export: String,
    pub name: String,
    pub args: Vec<Arg>,
    pub ret: String,
    pub docs: Option<String>,
}

/// One module of host functions.
pub struct Module {
    pub name: String,
    pub export: String,
    pub functions: Vec<Function>,
}

/// The whole table.
pub struct Root {
    pub modules: Vec<Module>,
}

/// Why a table was rejected. Indices are positions in the table.
pub enum RegistryError {
    /// A module declares more functions than there are export codes.
    CapacityExceeded { module: usize, have: usize, limit: usize },
    /// A function's export code is not the one the enumeration gives it.
    SchemeViolation { module: usize, function: usize, expected: String },
    /// A function reuses the (module code, function code) pair of an earlier one.
    DuplicateExport {
        module: usize,
        function: usize,
        existing_module: usize,
        existing_function: usize,
    },
}

pub open spec fn alphabet() -> Seq<char> {
    EXPORT_ALPHABET@
}

/// The export code that the enumeration assigns to the `i`-th function of a
/// module: single characters first, then pairs in lexicographic order.
pub open spec fn export_code(i: int) -> Seq<char> {
    if i < 63 {
        alphabet().subrange(i, i + 1)
    } else {
        let j = i - 63;
        alphabet().subrange(j / 63, j / 63 + 1) + alphabet().subrange(j % 63, j % 63 + 1)
    }
}

pub open spec fn fn_export(root: &Root, mi: int, fi: int) -> Seq<char> {
    root.modules@[mi].functions@[fi].export@
}

pub open spec fn mod_export(root: &Root, mi: int) -> Seq<char> {
    root.modules@[mi].export@
}

pub open spec fn valid_pos(root: &Root, mi: int, fi: int) -> bool {
    0 <= mi < root.modules@.len() && 0 <= fi < root.modules@[mi].functions@.len()
}

/// Position `(mj, fj)` comes before `(mi, fi)` in table order.
pub open spec fn before(mj: int, fj: int, mi: int, fi: int) -> bool {
    mj < mi || (mj == mi && fj < fi)
}

pub open spec fn same_pair(root: &Root, mi: int, fi: int, mj: int, fj: int) -> bool {
    mod_export(root, mi) == mod_export(root, mj) && fn_export(root, mi, fi) == fn_export(
        root,
        mj,
        fj,
    )
}

/// Some earlier function uses the same pair of codes as `(mi, fi)`.
pub open spec fn clashes_earlier(root: &Root, mi: int, fi: int) -> bool {
    exists|mj: int, fj: int|
        valid_pos(root, mj, fj) && before(mj, fj, mi, fi) && #[trigger] same_pair(
            root,
            mi,
            fi,
            mj,
            fj,
        )
}

pub open spec fn entry_ok(root: &Root, mi: int, fi: int) -> bool {
    fn_export(root, mi, fi) == export_code(fi) && !clashes_earlier(root, mi, fi)
}

pub open spec fn module_fits(root: &Root, mi: int) -> bool {
    root.modules@[mi].functions@.len() <= MAX_FUNCTIONS_PER_MODULE
}

/// Everything the validation looks at before position `(mi, fi)` is in order.
pub open spec fn clean_before(root: &Root, mi: int, fi: int) -> bool {
    &&& forall|m: int| 0 <= m < mi ==> #[trigger] module_fits(root, m)
    &&& forall|mj: int, fj: int|
        valid_pos(root, mj, fj) && before(mj, fj, mi, fi) ==> #[trigger] entry_ok(root, mj, fj)
}

/// The table is valid: every module fits, every function carries the code the
/// enumeration gives it, and no pair of codes is used twice.
pub open spec fn registry_valid(root: &Root) -> bool {
    clean_before(root, root.modules@.len() as int, 0)
}

pub proof fn lemma_alphabet_len()
    ensures
        alphabet().len() == 63,
{
    reveal_strlit("_0123456789abcdefghijklmnopqrstuvwxyzABCDEFGHIJKLMNOPQRSTUVWXYZ");
}

/// The export code of the `i`-th function of a module.
pub fn export_code_at(i: usize) -> (r: String)
    requires
        i < MAX_FUNCTIONS_PER_MODULE,
    ensures
        r@ == export_code(i as int),
{
    proof {
        lemma_alphabet_len();
    }
    let a: &str = EXPORT_ALPHABET;
    if i < ALPHABET_LEN {
        String::from_str(a.substring_char(i, i + 1))
    } else {
        let j: usize = i - ALPHABET_LEN;
        let hi: usize = j / ALPHABET_LEN;
        let lo: usize = j % ALPHABET_LEN;
        let mut s = String::from_str(a.substring_char(hi, hi + 1));
        s.append(a.substring_char(lo, lo + 1));
        s
    }
}

/// Looks for an earlier function with the same pair of codes as `(mi, fi)`.
fn find_earlier_clash(root: &Root, mi: usize, fi: usize) -> (r: Option<(usize, usize)>)
    requires
        valid_pos(root, mi as int, fi as int),
    ensures
        r is None <==> !clashes_earlier(root, mi as int, fi as int),
        r matches Some((mj, fj)) ==> valid_pos(root, mj as int, fj as int) && before(
            mj as int,
            fj as int,
            mi as int,
            fi as int,
        ) && same_pair(root, mi as int, fi as int, mj as int, fj as int),
{
    let me = &root.modules[mi].export;
    let fe = &root.modules[mi].functions[fi].export;
    let n: usize = root.modules.len();
    let mut mj: usize = 0;
    while mj <= mi
        invariant
            valid_pos(root, mi as int, fi as int),
            me@ == mod_export(root, mi as int),
            fe@ == fn_export(root, mi as int, fi as int),
            mj <= mi + 1,
            mi < n,
            forall|m: int, f: int|
                0 <= m < mj && valid_pos(root, m, f) && before(m, f, mi as int, fi as int)
                    ==> !same_pair(root, mi as int, fi as int, m, f),
        decreases mi + 1 - mj,
    {
        let m = &root.modules[mj];
        let end: usize = if mj == mi {
            fi
        } else {
            m.functions.len()
        };
        if m.export == *me {
            let mut fj: usize = 0;
            while fj < end
                invariant
                    valid_pos(root, mi as int, fi as int),
                    me@ == mod_export(root, mi as int),
                    fe@ == fn_export(root, mi as int, fi as int),
                    mj <= mi,
                    m == &root.modules@[mj as int],
                    m.export@ == me@,
                    end == (if mj == mi { fi as int } else { m.functions@.len() as int }),
                    fj <= end,
                    forall|m2: int, f: int|
                        0 <= m2 < mj && valid_pos(root, m2, f) && before(
                            m2,
                            f,
                            mi as int,
                            fi as int,
                        ) ==> !same_pair(root, mi as int, fi as int, m2, f),
                    forall|f: int| 0 <= f < fj ==> !same_pair(root, mi as int, fi as int, mj as int, f),
                decreases end - fj,
            {
                if m.functions[fj].export == *fe {
                    assert(same_pair(root, mi as int, fi as int, mj as int, fj as int));
                    assert(valid_pos(root, mj as int, fj as int));
                    assert(before(mj as int, fj as int, mi as int, fi as int));
                    return Some((mj, fj));
                }
                fj = fj + 1;
            }
        }
        mj = mj + 1;
    }
    None
}

/// Checks a table of host functions. Modules are examined in order; in each,
/// the function count is checked first, then each function in order: its
/// export code against the enumeration, then its pair of codes against those
/// of all earlier functions. The first failure is reported.
pub fn validate(root: &Root) -> (r: Result<(), RegistryError>)
    ensures
        r is Ok <==> registry_valid(root),
        r matches Err(RegistryError::CapacityExceeded { module, have, limit }) ==> {
            &&& module < root.modules@.len()
            &&& clean_before(root, module as int, 0)
            &&& have == root.modules@[module as int].functions@.len()
            &&& limit == MAX_FUNCTIONS_PER_MODULE
            &&& have > limit
        },
        r matches Err(RegistryError::SchemeViolation { module, function, expected }) ==> {
            &&& valid_pos(root, module as int, function as int)
            &&& module_fits(root, module as int)
            &&& clean_before(root, module as int, function as int)
            &&& expected@ == export_code(function as int)
            &&& fn_export(root, module as int, function as int) != expected@
        },
        r matches Err(
            RegistryError::DuplicateExport { module, function, existing_module, existing_function },
        ) ==> {
            &&& valid_pos(root, module as int, function as int)
            &&& module_fits(root, module as int)
            &&& clean_before(root, module as int, function as int)
            &&& fn_export(root, module as int, function as int) == export_code(function as int)
            &&& valid_pos(root, existing_module as int, existing_function as int)
            &&& before(
                existing_module as int,
                existing_function as int,
                module as int,
                function as int,
            )
            &&& same_pair(
                root,
                module as int,
                function as int,
                existing_module as int,
                existing_function as int,
            )
        },
{
    let mut mi: usize = 0;
    while mi < root.modules.len()
        invariant
            mi <= root.modules@.len(),
            clean_before(root, mi as int, 0),
        decreases root.modules@.len() - mi,
    {
        let m = &root.modules[mi];
        let have = m.functions.len();
        if have > MAX_FUNCTIONS_PER_MODULE {
            assert(!module_fits(root, mi as int));
            return Err(
                RegistryError::CapacityExceeded {
                    module: mi,
                    have,
                    limit: MAX_FUNCTIONS_PER_MODULE,
                },
            );
        }
        let mut fi: usize = 0;
        while fi < have
            invariant
                mi < root.modules@.len(),
                m == &root.modules@[mi as int],
                have == m.functions@.len(),
                have <= MAX_FUNCTIONS_PER_MODULE,
                fi <= have,
                clean_before(root, mi as int, fi as int),
            decreases have - fi,
        {
            let expected = export_code_at(fi);
            if m.functions[fi].export != expected {
                assert(!entry_ok(root, mi as int, fi as int));
                assert(before(mi as int, fi as int, root.modules@.len() as int, 0));
                return Err(RegistryError::SchemeViolation { module: mi, function: fi, expected });
            }
            match find_earlier_clash(root, mi, fi) {
                Some((mj, fj)) => {
                    assert(!entry_ok(root, mi as int, fi as int));
                    assert(before(mi as int, fi as int, root.modules@.len() as int, 0));
                    return Err(
                        RegistryError::DuplicateExport {
                            module: mi,
                            function: fi,
                            existing_module: mj,
                            existing_function: fj,
                        },
                    );
                },
                None => {},
            }
            assert(entry_ok(root, mi as int, fi as int));
            assert forall|mj: int, fj: int|
                valid_pos(root, mj, fj) && before(
                    mj,
                    fj,
                    mi as int,
                    fi + 1,
                ) implies #[trigger] entry_ok(root, mj, fj) by {
                if !(mj == mi && fj == fi) {
                    assert(before(mj, fj, mi as int, fi as int));
                }
            }
            fi = fi + 1;
        }
        assert forall|mj: int, fj: int|
            valid_pos(root, mj, fj) && before(mj, fj, mi + 1, 0) implies #[trigger] entry_ok(
            root,
            mj,
            fj,
        ) by {
            assert(before(mj, fj, mi as int, have as int));
        }
        assert(module_fits(root, mi as int));
        mi = mi + 1;
    }
    Ok(())
}

/// Resolves an import symbol, given as its module code and function code, to
/// the position of the function it names. In a valid table that position is
/// the only one with those codes.
pub fn resolve_import(root: &Root, module_code: &String, function_code: &String) -> (r: Option<
    (usize, usize),
>)
    ensures
        r matches Some((mi, fi)) ==> valid_pos(root, mi as int, fi as int) && mod_export(
            root,
            mi as int,
        ) == module_code@ && fn_export(root, mi as int, fi as int) == function_code@,
        r is None ==> forall|mi: int, fi: int|
            valid_pos(root, mi, fi) ==> !(#[trigger] mod_export(root, mi) == module_code@
                && #[trigger] fn_export(root, mi, fi) == function_code@),
{
    let mut mi: usize = 0;
    while mi < root.modules.len()
        invariant
            mi <= root.modules@.len(),
            forall|m: int, f: int|
                0 <= m < mi && valid_pos(root, m, f) ==> !(#[trigger] mod_export(root, m)
                    == module_code@ && #[trigger] fn_export(root, m, f) == function_code@),
        decreases root.modules@.len() - mi,
    {
        let m = &root.modules[mi];
        if m.export == *module_code {
            let mut fi: usize = 0;
            while fi < m.functions.len()
                invariant
                    mi < root.modules@.len(),
                    m == &root.modules@[mi as int],
                    m.export@ == module_code@,
                    fi <= m.functions@.len(),
                    forall|m2: int, f: int|
                        0 <= m2 < mi && valid_pos(root, m2, f) ==> !(#[trigger] mod_export(root, m2)
                            == module_code@ && #[trigger] fn_export(root, m2, f) == function_code@),
                    forall|f: int| 0 <= f < fi ==> #[trigger] fn_export(root, mi as int, f) != function_code@,
                decreases m.functions@.len() - fi,
            {
                if m.functions[fi].export == *function_code {
                    return Some((mi, fi));
                }
                fi = fi + 1;
            }
        }
        mi = mi + 1;
    }
    None
}

/// In a valid table no two functions share a pair of export codes, whatever
/// modules they belong to.
pub proof fn lemma_valid_pairs_unique(root: &Root, mi: int, fi: int, mj: int, fj: int)
    requires
        registry_valid(root),
        valid_pos(root, mi, fi),
        valid_pos(root, mj, fj),
        mi != mj || fi != fj,
    ensures
        !same_pair(root, mi, fi, mj, fj),
{
    if before(mj, fj, mi, fi) {
        assert(entry_ok(root, mi, fi));
    } else {
        assert(entry_ok(root, mj, fj));
        if same_pair(root, mi, fi, mj, fj) {
            assert(same_pair(root, mj, fj, mi, fi));
        }
    }
}

/// In a valid table each module's export codes are exactly the enumeration,
/// in order.
pub proof fn lemma_valid_codes_follow_enumeration(root: &Root, mi: int)
    requires
        registry_valid(root),
        0 <= mi < root.modules@.len(),
    ensures
        root.modules@[mi].functions@.len() <= MAX_FUNCTIONS_PER_MODULE,
        forall|fi: int|
            0 <= fi < root.modules@[mi].functions@.len() ==> #[trigger] fn_export(root, mi, fi)
                == export_code(fi),
{
    assert(module_fits(root, mi));
    assert forall|fi: int| 0 <= fi < root.modules@[mi].functions@.len() implies #[trigger] fn_export(
        root,
        mi,
        fi,
    ) == export_code(fi) by {
        assert(entry_ok(root, mi, fi));
    }
}

} // verus!
