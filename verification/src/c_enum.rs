//! Named bit flags: tables of kernel constants, each with its symbolic name
//! and its numeric value.
use crate::text::{chars_eq, chars_of, find_char, is_char, spec_join, spec_split};
use vstd::prelude::*;
use vstd::string::StringExecFns;

verus! {

/// One named flag: the symbolic name of a kernel constant and its value.
#[derive(Clone, Copy, Debug, PartialEq, Eq)]
pub struct Flag {
    pub name: &'static str,
    pub bits: u64,
}

impl Flag {
    /// The flag called `name` with the value `bits`.
    pub fn new(name: &'static str, bits: u64) -> (flag: Flag)
        ensures
            flag == (Flag { name, bits }),
    {
        Flag { name, bits }
    }

    /// The symbolic name of the flag.
    pub fn render(&self) -> (name: &'static str)
        ensures
            name == self.name,
    {
        self.name
    }

    /// The bits of `mask` that are bits of this flag.
    pub fn intersect(&self, mask: u64) -> (common: u64)
        ensures
            common == mask & self.bits,
    {
        mask & self.bits
    }

    /// Whether `mask` has a bit of this flag set.
    pub fn test(&self, mask: u64) -> (set: bool)
        ensures
            set == spec_test(mask, *self),
    {
        mask & self.bits != 0
    }

    /// `mask` with the bits of this flag added.
    pub fn combine(&self, mask: u64) -> (union: u64)
        ensures
            union == mask | self.bits,
    {
        mask | self.bits
    }
}

/// Whether `mask` has a bit of `flag` set.
pub open spec fn spec_test(mask: u64, flag: Flag) -> bool {
    mask & flag.bits != 0
}

/// The names of `flags`, in order.
pub open spec fn spec_names(flags: Seq<Flag>) -> Seq<Seq<char>> {
    flags.map_values(|flag: Flag| flag.name@)
}

/// No two of `flags` share a name.
pub open spec fn names_distinct(flags: Seq<Flag>) -> bool {
    forall|i: int, j: int|
        0 <= i < j < flags.len() ==> (#[trigger] flags[i]).name@ != (#[trigger] flags[j]).name@
}

/// `at` is a position of `flags` whose flag is called `name`.
pub open spec fn is_named_at(flags: Seq<Flag>, name: Seq<char>, at: int) -> bool {
    0 <= at < flags.len() && flags[at].name@ == name
}

/// The flag of `flags` called `name`, if there is one.
pub open spec fn spec_parse(flags: Seq<Flag>, name: Seq<char>) -> Option<Flag> {
    if exists|at: int| is_named_at(flags, name, at) {
        Some(flags[choose|at: int| is_named_at(flags, name, at)])
    } else {
        None
    }
}

/// The text of the error for a rejected `value`, listing every valid name.
pub open spec fn spec_error_text(value: Seq<char>, names: Seq<Seq<char>>) -> Seq<char> {
    "invalid value: "@ + value + ", options: "@ + spec_join(names, ", "@)
}

/// The union of the values of the flags of `flags` that `names` name, or the
/// first of `names` that names none.
pub open spec fn spec_mask_of(flags: Seq<Flag>, names: Seq<Seq<char>>) -> Result<u64, Seq<char>>
    decreases names.len(),
{
    if names.len() == 0 {
        Ok(0)
    } else {
        match spec_mask_of(flags, names.drop_last()) {
            Err(bad) => Err(bad),
            Ok(mask) => match spec_parse(flags, names.last()) {
                None => Err(names.last()),
                Some(flag) => Ok(mask | flag.bits),
            },
        }
    }
}

/// The flags of `flags` that have a bit set in `mask`, in order.
pub open spec fn spec_flags_in(flags: Seq<Flag>, mask: u64) -> Seq<Flag> {
    flags.filter(|flag: Flag| spec_test(mask, flag))
}

/// A string that names no flag of a table, with the flags it could have named.
#[derive(Debug)]
pub struct CEnumParseError {
    value: String,
    options: Vec<Flag>,
}

impl CEnumParseError {
    /// The rejected string.
    pub closed spec fn spec_value(&self) -> Seq<char> {
        self.value@
    }

    /// The flags of the table that rejected the string.
    pub closed spec fn spec_options(&self) -> Seq<Flag> {
        self.options@
    }

    /// Records that `name` is the name of none of the flags of `valid`.
    pub fn new(name: &str, valid: &FlagSet) -> (error: CEnumParseError)
        ensures
            error.spec_value() == name@,
            error.spec_options() == valid@,
    {
        CEnumParseError { value: name.to_owned(), options: valid.enumerate() }
    }

    /// The rejected string.
    pub fn value(&self) -> (value: &str)
        ensures
            value@ == self.spec_value(),
    {
        self.value.as_str()
    }

    /// The diagnostic for the operator: the rejected string, then the name of
    /// every flag of the table in declaration order.
    pub fn message(&self) -> (text: String)
        ensures
            text@ == spec_error_text(self.spec_value(), spec_names(self.spec_options())),
    {
        let mut text = "invalid value: ".to_owned();
        text.append(self.value.as_str());
        text.append(", options: ");
        let ghost head = text@;
        let ghost names = spec_names(self.options@);
        let mut i: usize = 0;
        while i < self.options.len()
            invariant
                i <= self.options@.len(),
                names == spec_names(self.options@),
                text@ == head + spec_join(names.take(i as int), ", "@),
            decreases self.options@.len() - i,
        {
            proof {
                assert(names.take(i + 1).drop_last() =~= names.take(i as int));
                assert(names.take(i + 1).last() == self.options@[i as int].name@);
                if i == 0 {
                    assert(spec_join(names.take(0), ", "@) =~= Seq::<char>::empty());
                }
            }
            if i > 0 {
                text.append(", ");
            }
            text.append(self.options[i].name);
            i += 1;
        }
        assert(names.take(self.options@.len() as int) =~= names);
        text
    }
}

/// An ordered table of flags with distinct names: one vocabulary of the kernel
/// interface. It is built once and never changes.
#[derive(Debug)]
pub struct FlagSet {
    flags: Vec<Flag>,
}

impl View for FlagSet {
    type V = Seq<Flag>;

    closed spec fn view(&self) -> Seq<Flag> {
        self.flags@
    }
}

impl FlagSet {
    #[verifier::type_invariant]
    spec fn inv(self) -> bool {
        names_distinct(self.flags@)
    }

    /// The table of `flags` in the given order, unless two of them share a
    /// name.
    pub fn new(flags: Vec<Flag>) -> (made: Option<FlagSet>)
        ensures
            match made {
                Some(set) => set@ == flags@ && names_distinct(flags@),
                None => !names_distinct(flags@),
            },
    {
        let mut names: Vec<Vec<char>> = Vec::new();
        let mut j: usize = 0;
        while j < flags.len()
            invariant
                j <= flags@.len(),
                names@.len() == j,
                forall|k: int| 0 <= k < j ==> (#[trigger] names@[k])@ == flags@[k].name@,
                names_distinct(flags@.take(j as int)),
            decreases flags@.len() - j,
        {
            let name = chars_of(flags[j].name);
            let mut i: usize = 0;
            while i < j
                invariant
                    i <= j < flags@.len(),
                    names@.len() == j,
                    name@ == flags@[j as int].name@,
                    forall|k: int| 0 <= k < j ==> (#[trigger] names@[k])@ == flags@[k].name@,
                    forall|k: int| 0 <= k < i ==> (#[trigger] flags@[k]).name@ != name@,
                decreases j - i,
            {
                if chars_eq(names[i].as_slice(), name.as_slice()) {
                    assert(flags@[i as int].name@ == flags@[j as int].name@);
                    return None;
                }
                i += 1;
            }
            names.push(name);
            assert forall|a: int, b: int| 0 <= a < b < j + 1 implies (#[trigger] flags@.take(
                j + 1,
            )[a]).name@ != (#[trigger] flags@.take(j + 1)[b]).name@ by {
                if b < j {
                    assert(flags@.take(j as int)[a].name@ != flags@.take(j as int)[b].name@);
                }
            }
            j += 1;
        }
        assert(flags@.take(flags@.len() as int) =~= flags@);
        Some(FlagSet { flags })
    }

    /// The table of `flags`, whose names are known to differ.
    pub(crate) fn from_distinct(flags: Vec<Flag>) -> (set: FlagSet)
        requires
            names_distinct(flags@),
        ensures
            set@ == flags@,
    {
        FlagSet { flags }
    }

    /// All flags of the table, in declaration order. Every call returns the
    /// same list.
    pub fn enumerate(&self) -> (all: Vec<Flag>)
        ensures
            all@ == self@,
            names_distinct(all@),
    {
        proof {
            use_type_invariant(self);
        }
        self.flags.clone()
    }

    /// Finds the flag whose name is exactly `name`.
    fn lookup(&self, name: &[char]) -> (found: Option<Flag>)
        ensures
            found == spec_parse(self@, name@),
            found matches Some(flag) ==> self@.contains(flag) && flag.name@ == name@,
            found is None ==> !spec_names(self@).contains(name@),
    {
        let mut i: usize = 0;
        while i < self.flags.len()
            invariant
                i <= self.flags@.len(),
                forall|k: int| 0 <= k < i ==> !is_named_at(self.flags@, name@, k),
            decreases self.flags@.len() - i,
        {
            let candidate = chars_of(self.flags[i].name);
            if chars_eq(candidate.as_slice(), name) {
                proof {
                    use_type_invariant(self);
                    assert(is_named_at(self.flags@, name@, i as int));
                    lemma_parse_inverts_render(self.flags@, i as int);
                }
                return Some(self.flags[i]);
            }
            i += 1;
        }
        proof {
            let names = spec_names(self@);
            if names.contains(name@) {
                let k = choose|k: int| 0 <= k < names.len() && names[k] == name@;
                assert(is_named_at(self.flags@, name@, k));
            }
        }
        None
    }

    /// Parses a flag by its exact symbolic name.
    ///
    /// Succeeds exactly when `name` is the name of a flag of the table, and
    /// then returns that flag; otherwise the error carries `name` and lists
    /// the flags of the table.
    pub fn parse(&self, name: &str) -> (parsed: Result<Flag, CEnumParseError>)
        ensures
            match parsed {
                Ok(flag) => spec_parse(self@, name@) == Some(flag) && self@.contains(flag)
                    && flag.name@ == name@,
                Err(error) => spec_parse(self@, name@) is None && !spec_names(self@).contains(name@)
                    && error.spec_value() == name@ && error.spec_options() == self@,
            },
    {
        let chars = chars_of(name);
        match self.lookup(chars.as_slice()) {
            Some(flag) => Ok(flag),
            None => Err(CEnumParseError::new(name, self)),
        }
    }

    /// Builds a mask from a comma-separated list of flag names.
    ///
    /// Succeeds exactly when every piece between the commas names a flag of
    /// the table; the mask is then the union of their values. Otherwise the
    /// error carries the first piece that names none.
    pub fn parse_mask(&self, list: &str) -> (parsed: Result<u64, CEnumParseError>)
        ensures
            match parsed {
                Ok(mask) => spec_mask_of(self@, spec_split(list@, is_char(','))) == Ok::<
                    u64,
                    Seq<char>,
                >(mask),
                Err(error) => spec_mask_of(self@, spec_split(list@, is_char(','))) == Err::<
                    u64,
                    Seq<char>,
                >(error.spec_value()) && error.spec_options() == self@,
            },
    {
        let chars = chars_of(list);
        let mut mask: u64 = 0;
        let mut start: usize = 0;
        let ghost whole = spec_split(list@, is_char(','));
        let ghost mut done: Seq<Seq<char>> = Seq::empty();
        proof {
            assert(list@.skip(0) =~= list@);
            assert(done + whole =~= whole);
        }
        loop
            invariant
                chars@ == list@,
                start <= chars@.len(),
                whole == spec_split(list@, is_char(',')),
                whole == done + spec_split(list@.skip(start as int), is_char(',')),
                spec_mask_of(self@, done) == Ok::<u64, Seq<char>>(mask),
            decreases chars@.len() - start,
        {
            let rest = vstd::slice::slice_subrange(chars.as_slice(), start, chars.len());
            let (end, more) = match find_char(rest, ',') {
                Some(at) => (start + at, true),
                None => (chars.len(), false),
            };
            let piece = vstd::slice::slice_subrange(chars.as_slice(), start, end);
            let ghost next = if more {
                spec_split(list@.skip(end + 1), is_char(','))
            } else {
                Seq::empty()
            };
            proof {
                let tail = list@.skip(start as int);
                assert(rest@ =~= tail);
                assert(piece@ =~= tail.take(end - start));
                if more {
                    assert(tail.skip(end - start + 1) =~= list@.skip(end + 1));
                } else {
                    assert(piece@ =~= tail);
                }
                assert(spec_split(tail, is_char(',')) == seq![piece@] + next);
                assert(whole =~= done.push(piece@) + next);
                assert(done.push(piece@).drop_last() =~= done);
            }
            match self.lookup(piece) {
                Some(flag) => {
                    mask = mask | flag.bits;
                },
                None => {
                    let bad = list.substring_char(start, end);
                    proof {
                        lemma_mask_of_prefix_error(self@, done.push(piece@), next);
                        assert(bad@ =~= piece@);
                    }
                    return Err(CEnumParseError::new(bad, self));
                },
            }
            proof {
                done = done.push(piece@);
            }
            if !more {
                proof {
                    assert(whole =~= done);
                }
                return Ok(mask);
            }
            start = end + 1;
        }
    }
}

/// A closed vocabulary of the kernel interface, fixed when the crate is built.
pub trait EnumValues {
    /// The flags of the vocabulary, in declaration order.
    spec fn spec_values() -> Seq<Flag>;

    /// The table of the vocabulary. Every call returns the same table.
    fn values() -> (set: FlagSet)
        ensures
            set@ == Self::spec_values(),
    ;

    /// The names of the vocabulary differ from each other.
    proof fn lemma_names_distinct()
        ensures
            names_distinct(Self::spec_values()),
    ;
}

/// Parsing the name of a flag of a table gives that flag back: in a table
/// with distinct names, the name of the flag at any position is parsed to the
/// flag at that position.
pub proof fn lemma_parse_inverts_render(flags: Seq<Flag>, at: int)
    requires
        names_distinct(flags),
        0 <= at < flags.len(),
    ensures
        spec_parse(flags, flags[at].name@) == Some(flags[at]),
{
    let name = flags[at].name@;
    assert(is_named_at(flags, name, at));
    let found = choose|k: int| is_named_at(flags, name, k);
    if found < at {
        assert(flags[found].name@ != flags[at].name@);
    } else if at < found {
        assert(flags[at].name@ != flags[found].name@);
    }
}

/// A string is accepted exactly when it is in the list of declared names.
pub proof fn lemma_parse_accepts_declared_names(flags: Seq<Flag>, name: Seq<char>)
    ensures
        spec_parse(flags, name) is Some <==> spec_names(flags).contains(name),
{
    let names = spec_names(flags);
    if spec_parse(flags, name) is Some {
        let at = choose|at: int| is_named_at(flags, name, at);
        assert(names[at] == name);
    }
    if names.contains(name) {
        let k = choose|k: int| 0 <= k < names.len() && names[k] == name;
        assert(is_named_at(flags, name, k));
    }
}

/// An error in a list of names stays the result when more names follow.
proof fn lemma_mask_of_prefix_error(flags: Seq<Flag>, head: Seq<Seq<char>>, tail: Seq<Seq<char>>)
    requires
        spec_mask_of(flags, head) is Err,
    ensures
        spec_mask_of(flags, head + tail) == spec_mask_of(flags, head),
    decreases tail.len(),
{
    if tail.len() == 0 {
        assert(head + tail =~= head);
    } else {
        lemma_mask_of_prefix_error(flags, head, tail.drop_last());
        assert((head + tail).drop_last() =~= head + tail.drop_last());
    }
}

/// Parsing the name of a flag of a vocabulary gives that flag back.
pub proof fn lemma_vocabulary_round_trip<T: EnumValues>(at: int)
    requires
        0 <= at < T::spec_values().len(),
    ensures
        spec_parse(T::spec_values(), T::spec_values()[at].name@) == Some(T::spec_values()[at]),
{
    T::lemma_names_distinct();
    lemma_parse_inverts_render(T::spec_values(), at);
}

} // verus!
