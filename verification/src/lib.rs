pub mod algos;
pub mod app_config;
pub mod data_generator;
pub mod inversions;
pub mod order;
pub mod render;

use vstd::prelude::*;

use crate::app_config::Config;
use crate::render::{frame_of, prefix_char};
use vstd::string::StringExecFns;

verus! {

/// One primitive mutation, as it was issued: an exchange of two positions,
/// or a positional write of a value.
pub enum Step {
    Swap(usize, usize),
    Assign(usize, u32),
}

/// An instrumented sequence of bar magnitudes: every mutation goes through
/// `swap` or `set`, is counted and recorded in order, and, unless the run
/// is silent, leaves the rendered frames behind in order.
pub struct ArraySorter {
    arr: Vec<u32>,
    algo: SortAlgo,
    total_swap: u32,
    highlight_range: Option<(usize, usize)>,
    config: Config,
    frames: Vec<String>,
    steps: Ghost<Seq<Step>>,
}

impl View for ArraySorter {
    type V = Seq<u32>;

    closed spec fn view(&self) -> Seq<u32> {
        self.arr@
    }
}

/// The counter after `n` more primitive steps: one increment per step,
/// capped at the counter's width.
pub open spec fn add_capped(c: u32, n: nat) -> u32 {
    if c + n <= u32::MAX {
        (c + n) as u32
    } else {
        u32::MAX
    }
}

/// Counting steps in two batches is counting them in one.
pub proof fn lemma_add_capped_assoc(c: u32, a: nat, b: nat)
    ensures
        add_capped(add_capped(c, a), b) == add_capped(c, a + b),
{
}

impl ArraySorter {
    /// The number of primitive mutations performed so far.
    pub closed spec fn swaps(&self) -> u32 {
        self.total_swap
    }

    /// The presentational highlight range, if one is set.
    pub closed spec fn highlight(&self) -> Option<(usize, usize)> {
        self.highlight_range
    }

    /// The run configuration this sorter was built with.
    pub closed spec fn cfg(&self) -> Config {
        self.config
    }

    /// The algorithm this sorter was built with.
    pub closed spec fn algo(&self) -> SortAlgo {
        self.algo
    }

    /// The frames rendered so far, oldest first.
    pub closed spec fn frame_log(&self) -> Seq<String> {
        self.frames@
    }

    /// The primitive mutations issued so far, in order.
    pub closed spec fn steps(&self) -> Seq<Step> {
        self.steps@
    }

    /// The counter agrees with the record: one increment per primitive
    /// mutation, capped at the counter's width. Established at construction
    /// and preserved by every primitive.
    pub open spec fn wf_counter(&self) -> bool {
        self.swaps() == add_capped(0, self.steps().len())
    }

    pub fn new(arr: Vec<u32>, algo: SortAlgo, config: Config) -> (s: ArraySorter)
        ensures
            s@ == arr@,
            s.algo() == algo,
            s.cfg() == config,
            s.swaps() == 0,
            s.highlight() == None::<(usize, usize)>,
            s.frame_log() == Seq::<String>::empty(),
            s.steps() == Seq::<Step>::empty(),
            s.wf_counter(),
    {
        let s = ArraySorter {
            arr,
            algo,
            total_swap: 0,
            highlight_range: None,
            config,
            frames: Vec::new(),
            steps: Ghost(Seq::empty()),
        };
        proof {
            assert(s.frame_log() =~= Seq::<String>::empty());
        }
        s
    }

    /// The element count, constant for the whole run.
    pub fn size(&self) -> (n: usize)
        ensures
            n == self@.len(),
    {
        self.arr.len()
    }

    /// Reads one value; algorithms compare through this.
    pub fn get(&self, i: usize) -> (v: u32)
        requires
            i < self@.len(),
        ensures
            v == self@[i as int],
    {
        self.arr[i]
    }

    /// Borrows the values, for callers that want the whole sequence.
    pub fn values(&self) -> (r: &Vec<u32>)
        ensures
            r@ == self@,
    {
        &self.arr
    }

    /// The primitive-mutation counter.
    pub fn total_swaps(&self) -> (r: u32)
        ensures
            r == self.swaps(),
    {
        self.total_swap
    }

    /// Borrows the rendered frames, oldest first.
    pub fn frames(&self) -> (r: &Vec<String>)
        ensures
            r@ == self.frame_log(),
    {
        &self.frames
    }

    /// The highlight range currently set, if any.
    pub fn current_highlight(&self) -> (r: Option<(usize, usize)>)
        ensures
            r == self.highlight(),
    {
        self.highlight_range
    }

    /// One whole run: unless silent, a frame of the initial state is kept
    /// first and a frame of the final state last; in between, the bound
    /// algorithm reorders the values through the two primitives until they
    /// stand in non-descending order, as a permutation of the input. Every
    /// primitive call is recorded in order and counted exactly once, up to
    /// the counter's width. A sequence of length zero or one is never
    /// touched.
    pub fn sort(&mut self)
        ensures
            crate::algos::sorts(*old(self), *final(self)),
            crate::algos::keeps_admin(*old(self), *final(self)),
            crate::algos::keeps_frames(*old(self), *final(self)),
            crate::algos::keeps_trace(*old(self), *final(self)),
            old(self).wf_counter() ==> final(self).swaps() == add_capped(
                old(self).swaps(),
                (final(self).steps().len() - old(self).steps().len()) as nat,
            ),
            old(self).algo() == SortAlgo::MergeSort ==> crate::algos::assigns_only_since(
                *old(self),
                *final(self),
            ),
            old(self).algo() != SortAlgo::MergeSort ==> crate::algos::swaps_only_since(
                *old(self),
                *final(self),
            ),
            old(self).algo() == SortAlgo::InsertionSort || old(self).algo()
                == SortAlgo::BubbleSort || old(self).algo() == SortAlgo::GnomeSort
                ==> final(self).swaps() == add_capped(
                old(self).swaps(),
                crate::inversions::inversions(old(self)@),
            ),
            old(self).algo() == SortAlgo::SelectionSort && crate::order::is_sorted(old(self)@)
                ==> final(self)@ == old(self)@ && final(self).swaps() == old(self).swaps()
                && final(self).steps() == old(self).steps(),
            old(self).algo() == SortAlgo::SelectionSort && old(self)@.len() > 0
                ==> final(self).swaps() <= add_capped(
                old(self).swaps(),
                (old(self)@.len() - 1) as nat,
            ),
            old(self).algo() == SortAlgo::QuickSort && old(self)@.len() <= 2
                ==> final(self).swaps() <= add_capped(old(self).swaps(), old(self)@.len()),
            old(self)@.len() <= 1 ==> final(self)@ == old(self)@,
            old(self)@.len() <= 1 ==> final(self).swaps() == old(self).swaps(),
            old(self)@.len() <= 1 ==> final(self).steps() == old(self).steps(),
            final(self).highlight() == crate::algos::highlight_after(
                old(self).algo(),
                old(self).highlight(),
                old(self)@.len(),
            ),
            !old(self).cfg().silent ==> final(self).frame_log().len() >= old(
                self,
            ).frame_log().len() + 2,
            !old(self).cfg().silent ==> final(self).frame_log()[old(self).frame_log().len() as int]@
                == frame_of(old(self)@, None::<(usize, usize)>, None::<(usize, usize)>),
            !old(self).cfg().silent ==> final(self).frame_log().last()@ == frame_of(
                final(self)@,
                None::<(usize, usize)>,
                None::<(usize, usize)>,
            ),
    {
        let algo = self.algo;
        if !self.config.silent {
            let f = self.print_arr();
            self.frames.push(f);
        }
        let ghost mid = *self;
        algo.sort(self);
        let ghost done = *self;
        if !self.config.silent {
            let f = self.print_arr();
            self.frames.push(f);
        }
        proof {
            if !old(self).cfg().silent {
                assert(mid.frame_log()[old(self).frame_log().len() as int]@ == frame_of(
                    old(self)@,
                    None::<(usize, usize)>,
                    None::<(usize, usize)>,
                ));
                assert(done.frame_log()[old(self).frame_log().len() as int]
                    == mid.frame_log()[old(self).frame_log().len() as int]);
            }
            crate::order::lemma_prefix_trans(
                old(self).frame_log(),
                mid.frame_log(),
                done.frame_log(),
            );
            crate::order::lemma_prefix_trans(
                old(self).frame_log(),
                done.frame_log(),
                self.frame_log(),
            );
            assert(old(self).steps() == mid.steps() && done.steps() == self.steps());
            assert(old(self).steps().is_prefix_of(self.steps()));
            if old(self).wf_counter() {
                lemma_add_capped_assoc(
                    0,
                    old(self).steps().len(),
                    (self.steps().len() - old(self).steps().len()) as nat,
                );
            }
        }
    }

    /// Exchanges the values at `i` and `j`. Unless silent, a frame with both
    /// indices marked is kept before and after the exchange.
    pub fn swap(&mut self, i: usize, j: usize)
        requires
            i < old(self)@.len(),
            j < old(self)@.len(),
        ensures
            final(self)@ == old(self)@.update(i as int, old(self)@[j as int]).update(
                j as int,
                old(self)@[i as int],
            ),
            final(self).swaps() == add_capped(old(self).swaps(), 1),
            final(self).steps() == old(self).steps().push(Step::Swap(i, j)),
            old(self).wf_counter() ==> final(self).wf_counter(),
            final(self).highlight() == old(self).highlight(),
            final(self).cfg() == old(self).cfg(),
            final(self).algo() == old(self).algo(),
            old(self).cfg().silent ==> final(self).frame_log() == old(self).frame_log(),
            !old(self).cfg().silent ==> final(self).frame_log().len() == old(
                self,
            ).frame_log().len() + 2,
            !old(self).cfg().silent ==> old(self).frame_log().is_prefix_of(
                final(self).frame_log(),
            ),
            !old(self).cfg().silent ==> final(self).frame_log()[old(self).frame_log().len() as int]@
                == frame_of(old(self)@, old(self).highlight(), Some((i, j))),
            !old(self).cfg().silent ==> final(self).frame_log()[old(self).frame_log().len() as int
                + 1]@ == frame_of(final(self)@, old(self).highlight(), Some((i, j))),
    {
        if !self.config.silent {
            let f = self.print_swap(i, j);
            self.frames.push(f);
        }
        let vi = self.arr[i];
        let vj = self.arr[j];
        self.arr[i] = vj;
        self.arr[j] = vi;
        if !self.config.silent {
            let f = self.print_swap(i, j);
            self.frames.push(f);
        }
        if self.total_swap < u32::MAX {
            self.total_swap = self.total_swap + 1;
        }
        self.steps = Ghost(self.steps@.push(Step::Swap(i, j)));
        proof {
            if !old(self).cfg().silent {
                assert(old(self).frame_log().is_prefix_of(self.frame_log()));
            }
        }
    }

    /// Overwrites the value at `i`. Unless silent, one frame with the index
    /// marked is kept after the write.
    pub fn set(&mut self, i: usize, val: u32)
        requires
            i < old(self)@.len(),
        ensures
            final(self)@ == old(self)@.update(i as int, val),
            final(self).swaps() == add_capped(old(self).swaps(), 1),
            final(self).steps() == old(self).steps().push(Step::Assign(i, val)),
            old(self).wf_counter() ==> final(self).wf_counter(),
            final(self).highlight() == old(self).highlight(),
            final(self).cfg() == old(self).cfg(),
            final(self).algo() == old(self).algo(),
            old(self).cfg().silent ==> final(self).frame_log() == old(self).frame_log(),
            !old(self).cfg().silent ==> final(self).frame_log().len() == old(
                self,
            ).frame_log().len() + 1,
            !old(self).cfg().silent ==> old(self).frame_log().is_prefix_of(
                final(self).frame_log(),
            ),
            !old(self).cfg().silent ==> final(self).frame_log()[old(self).frame_log().len() as int]@
                == frame_of(final(self)@, old(self).highlight(), Some((i, i))),
    {
        self.arr[i] = val;
        if !self.config.silent {
            let f = self.print_set(i);
            self.frames.push(f);
        }
        if self.total_swap < u32::MAX {
            self.total_swap = self.total_swap + 1;
        }
        self.steps = Ghost(self.steps@.push(Step::Assign(i, val)));
        proof {
            if !old(self).cfg().silent {
                assert(old(self).frame_log().is_prefix_of(self.frame_log()));
            }
        }
    }

    /// A frame with the two indices of an exchange marked.
    pub fn print_swap(&self, i: usize, j: usize) -> (r: String)
        ensures
            r@ == frame_of(self@, self.highlight(), Some((i, j))),
    {
        render::render_frame(&self.arr, self.highlight_range, Some((i, j)))
    }

    /// A frame with the index of a write marked.
    pub fn print_set(&self, i: usize) -> (r: String)
        ensures
            r@ == frame_of(self@, self.highlight(), Some((i, i))),
    {
        render::render_frame(&self.arr, self.highlight_range, Some((i, i)))
    }

    /// A frame with nothing marked and no highlight prefix, used before and
    /// after a whole run.
    pub fn print_arr(&self) -> (r: String)
        ensures
            r@ == frame_of(self@, None::<(usize, usize)>, None::<(usize, usize)>),
    {
        render::render_frame(&self.arr, None, None)
    }

    /// The one-character structural prefix of the line for `idx`.
    pub fn get_range_prefix(&self, idx: usize) -> (r: String)
        ensures
            r@ == seq![prefix_char(self.highlight(), idx as int)],
    {
        render::range_prefix(self.highlight_range, idx).to_owned()
    }

    /// Marks the inclusive index span an algorithm is about to work on.
    /// Never renders and never pauses.
    pub fn set_highlight_range(&mut self, left: usize, right: usize)
        requires
            left <= right,
            right < old(self)@.len(),
        ensures
            final(self)@ == old(self)@,
            final(self).swaps() == old(self).swaps(),
            final(self).steps() == old(self).steps(),
            final(self).highlight() == Some((left, right)),
            final(self).cfg() == old(self).cfg(),
            final(self).algo() == old(self).algo(),
            final(self).frame_log() == old(self).frame_log(),
    {
        self.highlight_range = Some((left, right));
    }

    /// Clears the highlight span. Never renders and never pauses.
    pub fn clear_highlight_range(&mut self)
        ensures
            final(self)@ == old(self)@,
            final(self).swaps() == old(self).swaps(),
            final(self).steps() == old(self).steps(),
            final(self).highlight() == None::<(usize, usize)>,
            final(self).cfg() == old(self).cfg(),
            final(self).algo() == old(self).algo(),
            final(self).frame_log() == old(self).frame_log(),
    {
        self.highlight_range = None;
    }
}

/// The error for a name that matches no algorithm in the catalog.
#[derive(Debug, Clone, Copy, PartialEq, Eq, Structural)]
pub struct ParseAlgoError {}

impl ParseAlgoError {
    /// The message shown for an unrecognized algorithm name.
    pub fn message(&self) -> (r: &'static str)
        ensures
            r@
                == "provided string is not a valid sorting algorithm. Use help command to see the list of supporting algos"@,
    {
        "provided string is not a valid sorting algorithm. Use help command to see the list of supporting algos"
    }
}

/// The closed catalog of sorting strategies.
#[derive(Debug, Clone, Copy, PartialEq, Eq, Structural)]
pub enum SortAlgo {
    InsertionSort,
    SelectionSort,
    BubbleSort,
    GnomeSort,
    CombSort,
    MergeSort,
    QuickSort,
}

/// The canonical lowercase name of each algorithm.
pub open spec fn algo_name(a: SortAlgo) -> Seq<char> {
    match a {
        SortAlgo::InsertionSort => "insertion"@,
        SortAlgo::SelectionSort => "selection"@,
        SortAlgo::BubbleSort => "bubble"@,
        SortAlgo::GnomeSort => "gnome"@,
        SortAlgo::CombSort => "comb"@,
        SortAlgo::MergeSort => "merge"@,
        SortAlgo::QuickSort => "quick"@,
    }
}

/// The algorithm a canonical name denotes, if any.
pub open spec fn algo_of_name(s: Seq<char>) -> Option<SortAlgo> {
    if s == algo_name(SortAlgo::InsertionSort) {
        Some(SortAlgo::InsertionSort)
    } else if s == algo_name(SortAlgo::SelectionSort) {
        Some(SortAlgo::SelectionSort)
    } else if s == algo_name(SortAlgo::BubbleSort) {
        Some(SortAlgo::BubbleSort)
    } else if s == algo_name(SortAlgo::GnomeSort) {
        Some(SortAlgo::GnomeSort)
    } else if s == algo_name(SortAlgo::CombSort) {
        Some(SortAlgo::CombSort)
    } else if s == algo_name(SortAlgo::MergeSort) {
        Some(SortAlgo::MergeSort)
    } else if s == algo_name(SortAlgo::QuickSort) {
        Some(SortAlgo::QuickSort)
    } else {
        None
    }
}

/// Each canonical name is lowercase ASCII and looks up to its own
/// algorithm: the catalog's names are pairwise distinct, and lowercasing
/// leaves them as they are, so a lookup of a canonical name round-trips.
pub proof fn lemma_canonical_names_parse(a: SortAlgo)
    ensures
        is_lower_ascii(algo_name(a)),
        algo_of_name(algo_name(a)) == Some(a),
{
    reveal_strlit("insertion");
    reveal_strlit("selection");
    reveal_strlit("bubble");
    reveal_strlit("gnome");
    reveal_strlit("comb");
    reveal_strlit("merge");
    reveal_strlit("quick");
    assert("selection"@[0] != "insertion"@[0]);
    assert("merge"@[0] != "gnome"@[0]);
    assert("quick"@[0] != "gnome"@[0]);
    assert("quick"@[0] != "merge"@[0]);
    let s = algo_name(a);
    assert forall|k: int| 0 <= k < s.len() implies 'a' as u32 <= (#[trigger] s[k]) as u32 <= 'z'
        as u32 by {
        if k == 0 {
        } else if k == 1 {
        } else if k == 2 {
        } else if k == 3 {
        } else if k == 4 {
        } else if k == 5 {
        } else if k == 6 {
        } else if k == 7 {
        } else {
            assert(k == 8);
        }
    }
}

/// What `str::to_lowercase` returns; the result depends on the characters
/// alone.
pub uninterp spec fn lower_of(s: Seq<char>) -> Seq<char>;

/// Only characters from the lowercase ASCII letters, as the canonical
/// algorithm names are.
pub open spec fn is_lower_ascii(s: Seq<char>) -> bool {
    forall|k: int| 0 <= k < s.len() ==> 'a' as u32 <= (#[trigger] s[k]) as u32 <= 'z' as u32
}

/// Relies on `str::to_lowercase`: the returned string is the lowercase
/// equivalent of the input and is a function of the input characters alone;
/// a character with no lowercase mapping, as the ASCII letters a to z are,
/// is yielded unchanged, so such strings map to themselves.
#[verifier::external_body]
fn lowercase(s: &str) -> (r: String)
    ensures
        r@ == lower_of(s@),
        is_lower_ascii(s@) ==> r@ == s@,
{
    s.to_lowercase()
}

impl std::str::FromStr for SortAlgo {
    type Err = ParseAlgoError;

    fn from_str(s: &str) -> Result<SortAlgo, ParseAlgoError> {
        SortAlgo::from_name(s)
    }
}

impl SortAlgo {
    /// Every algorithm in the catalog, in canonical order.
    pub fn all_algos() -> (r: Vec<SortAlgo>)
        ensures
            r@ == seq![
                SortAlgo::InsertionSort,
                SortAlgo::SelectionSort,
                SortAlgo::BubbleSort,
                SortAlgo::GnomeSort,
                SortAlgo::CombSort,
                SortAlgo::MergeSort,
                SortAlgo::QuickSort,
            ],
    {
        let mut v: Vec<SortAlgo> = Vec::new();
        v.push(SortAlgo::InsertionSort);
        v.push(SortAlgo::SelectionSort);
        v.push(SortAlgo::BubbleSort);
        v.push(SortAlgo::GnomeSort);
        v.push(SortAlgo::CombSort);
        v.push(SortAlgo::MergeSort);
        v.push(SortAlgo::QuickSort);
        proof {
            assert(v@ =~= seq![
                SortAlgo::InsertionSort,
                SortAlgo::SelectionSort,
                SortAlgo::BubbleSort,
                SortAlgo::GnomeSort,
                SortAlgo::CombSort,
                SortAlgo::MergeSort,
                SortAlgo::QuickSort,
            ]);
        }
        v
    }

    /// The canonical names, in the catalog's order.
    pub fn all_algos_str() -> (r: [&'static str; 7])
        ensures
            r@.len() == 7,
            r@[0]@ == algo_name(SortAlgo::InsertionSort),
            r@[1]@ == algo_name(SortAlgo::SelectionSort),
            r@[2]@ == algo_name(SortAlgo::BubbleSort),
            r@[3]@ == algo_name(SortAlgo::GnomeSort),
            r@[4]@ == algo_name(SortAlgo::CombSort),
            r@[5]@ == algo_name(SortAlgo::MergeSort),
            r@[6]@ == algo_name(SortAlgo::QuickSort),
    {
        ["insertion", "selection", "bubble", "gnome", "comb", "merge", "quick"]
    }

    /// The canonical lowercase name of this algorithm.
    pub fn get_algo_name(&self) -> (r: &'static str)
        ensures
            r@ == algo_name(*self),
    {
        match self {
            SortAlgo::InsertionSort => "insertion",
            SortAlgo::SelectionSort => "selection",
            SortAlgo::BubbleSort => "bubble",
            SortAlgo::GnomeSort => "gnome",
            SortAlgo::CombSort => "comb",
            SortAlgo::MergeSort => "merge",
            SortAlgo::QuickSort => "quick",
        }
    }

    /// Case-insensitive lookup in the catalog: the name is lowercased, and
    /// succeeds exactly when the result is a canonical name. A name that is
    /// already lowercase ASCII is looked up verbatim.
    pub fn from_name(s: &str) -> (r: Result<SortAlgo, ParseAlgoError>)
        ensures
            r is Ok <==> algo_of_name(lower_of(s@)) is Some,
            r matches Ok(a) ==> algo_of_name(lower_of(s@)) == Some(a),
            is_lower_ascii(s@) ==> (r is Ok <==> algo_of_name(s@) is Some),
            is_lower_ascii(s@) ==> (r matches Ok(a) ==> algo_of_name(s@) == Some(a)),
    {
        let lower = lowercase(s);
        if lower == "insertion".to_owned() {
            Ok(SortAlgo::InsertionSort)
        } else if lower == "selection".to_owned() {
            Ok(SortAlgo::SelectionSort)
        } else if lower == "bubble".to_owned() {
            Ok(SortAlgo::BubbleSort)
        } else if lower == "gnome".to_owned() {
            Ok(SortAlgo::GnomeSort)
        } else if lower == "comb".to_owned() {
            Ok(SortAlgo::CombSort)
        } else if lower == "merge".to_owned() {
            Ok(SortAlgo::MergeSort)
        } else if lower == "quick".to_owned() {
            Ok(SortAlgo::QuickSort)
        } else {
            Err(ParseAlgoError {})
        }
    }
}

} // verus!
