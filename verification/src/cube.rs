//! The lookup table of a `.cube` text: reading it from the lines of the
//! text, and rendering its slices as tiles.

use crate::literal::{is_channel_literal, is_channel_token, parse_size, size_of_token};
use crate::pattern::{
    captures, compile, groups_view, regex_captures, regex_compiles, regex_pattern, Groups,
};
use crate::raster::{
    can_hold, can_resample, lemma_raster_ext, put_pixel, resize_each, Image, Pixel, Raster,
};
use crate::utils::{
    horizontal_stack, is_outcome, is_row_of, rasters, stack_outcome, uniform, Axis, StackError,
};
use vstd::arithmetic::div_mod::lemma_fundamental_div_mod;
use vstd::prelude::*;

verus! {

/// The pattern of the header line: the word `LUT_3D_SIZE`, white space,
/// and the token that declares the edge size.
pub const SIZE_PATTERN: &'static str = "LUT_3D_SIZE\\s+(\\S*)";

/// The pattern of a sample line: three numerals and nothing else, with
/// white space between them and, if any, around them. A numeral has an
/// optional sign, digits, optionally a point and digits, and optionally
/// an exponent.
pub const SAMPLE_PATTERN: &'static str =
    "^\\s*([-+]?\\d+(?:\\.\\d+)?(?:[eE][-+]?\\d+)?)\\s+([-+]?\\d+(?:\\.\\d+)?(?:[eE][-+]?\\d+)?)\\s+([-+]?\\d+(?:\\.\\d+)?(?:[eE][-+]?\\d+)?)\\s*$";

/// The pattern of a line that starts like a number: after white space, if
/// any, a sign, a point or a digit.
pub const NUMERIC_PATTERN: &'static str = "^\\s*[-+.\\d]";

/// How a line is treated that starts like a number and is no sample line.
#[derive(Debug, Clone, Copy, PartialEq, Eq, Structural)]
pub enum Mode {
    /// The line is passed over, as a comment is.
    Lenient,
    /// The line is an error.
    Strict,
}

/// Why the lines of a text are no lookup table.
#[derive(Debug, Clone, Copy, PartialEq, Eq, Structural)]
pub enum ParseError {
    /// One of the patterns did not compile.
    Pattern,
    /// No line declares the edge size.
    MissingSizeHeader,
    /// The declared edge size, or a channel of a sample, is no numeral that
    /// this library reads; or, in strict mode, a line starts like a number
    /// and is no sample line.
    NumberFormat,
    /// The number of samples is no multiple of the edge size.
    SizeMismatch { actual: usize, edge_size: usize },
}

/// The mathematical value of a [`Color`]: its three channels as written.
pub struct Sample {
    pub red: Seq<char>,
    pub green: Seq<char>,
    pub blue: Seq<char>,
}

impl Sample {
    /// Each channel is a channel numeral.
    pub open spec fn wf(self) -> bool {
        is_channel_literal(self.red) && is_channel_literal(self.green) && is_channel_literal(
            self.blue,
        )
    }
}

/// One sample of the table: the red, green and blue channel, each kept as
/// the numeral that the text holds.
#[derive(Debug)]
pub struct Color {
    red: String,
    green: String,
    blue: String,
}

impl View for Color {
    type V = Sample;

    closed spec fn view(&self) -> Sample {
        Sample { red: self.red@, green: self.green@, blue: self.blue@ }
    }
}

impl Color {
    #[verifier::type_invariant]
    spec fn channels_are_numerals(self) -> bool {
        self@.wf()
    }

    /// A sample of the three channels, or `None` where one of them is no
    /// channel numeral.
    pub fn new(red: &str, green: &str, blue: &str) -> (c: Option<Color>)
        ensures
            c.is_some() == (Sample { red: red@, green: green@, blue: blue@ }).wf(),
            c matches Some(color) ==> color@ == (Sample { red: red@, green: green@, blue: blue@ }),
    {
        if is_channel_token(red) && is_channel_token(green) && is_channel_token(blue) {
            Some(Color { red: red.to_owned(), green: green.to_owned(), blue: blue.to_owned() })
        } else {
            None
        }
    }

    /// The red channel, a channel numeral.
    pub fn red(&self) -> (s: &str)
        ensures
            s@ == self@.red,
            self@.wf(),
    {
        proof {
            use_type_invariant(self);
        }
        self.red.as_str()
    }

    /// The green channel, a channel numeral.
    pub fn green(&self) -> (s: &str)
        ensures
            s@ == self@.green,
            self@.wf(),
    {
        proof {
            use_type_invariant(self);
        }
        self.green.as_str()
    }

    /// The blue channel, a channel numeral.
    pub fn blue(&self) -> (s: &str)
        ensures
            s@ == self@.blue,
            self@.wf(),
    {
        proof {
            use_type_invariant(self);
        }
        self.blue.as_str()
    }
}

/// The mathematical value of a [`Cube`].
pub struct CubeModel {
    pub edge_size: nat,
    pub samples: Seq<Sample>,
    pub slice_count: nat,
}

impl CubeModel {
    /// The edge size is positive and divides the number of samples, and
    /// the slice count is the number of whole slices among the samples.
    pub open spec fn wf(self) -> bool {
        &&& self.edge_size >= 1
        &&& self.samples.len() % self.edge_size == 0
        &&& self.slice_count == self.samples.len() / (self.edge_size * self.edge_size)
    }
}

/// A lookup table: `n_images` slices of `size` by `size` samples each, in
/// the order of the text.
#[derive(Debug)]
pub struct Cube {
    pub size: usize,
    pub values: Vec<Color>,
    pub n_images: usize,
}

/// The mathematical values of a sequence of samples.
pub open spec fn samples_view(values: Seq<Color>) -> Seq<Sample> {
    values.map_values(|c: Color| c@)
}

impl View for Cube {
    type V = CubeModel;

    open spec fn view(&self) -> CubeModel {
        CubeModel {
            edge_size: self.size as nat,
            samples: samples_view(self.values@),
            slice_count: self.n_images as nat,
        }
    }
}

/// The texts of a sequence of lines.
pub open spec fn texts(lines: Seq<String>) -> Seq<Seq<char>> {
    lines.map_values(|line: String| line@)
}

/// The text of group `k` of a match; empty where the match has no such
/// group.
pub open spec fn group_text(groups: Seq<Option<Seq<char>>>, k: int) -> Seq<char> {
    if 0 <= k < groups.len() && groups[k].is_some() {
        groups[k].unwrap()
    } else {
        Seq::empty()
    }
}

/// The size token of a line, where the line is a header.
pub open spec fn header_token(line: Seq<char>) -> Option<Seq<char>> {
    match regex_captures(SIZE_PATTERN@, line) {
        Some(groups) => Some(group_text(groups, 1)),
        None => None,
    }
}

/// The sample that a line holds, if it holds one.
pub open spec fn sample_of(line: Seq<char>) -> Option<Sample> {
    match regex_captures(SAMPLE_PATTERN@, line) {
        Some(groups) => Some(
            Sample {
                red: group_text(groups, 1),
                green: group_text(groups, 2),
                blue: group_text(groups, 3),
            },
        ),
        None => None,
    }
}

/// The index of the first header among the lines from `from` on.
pub open spec fn header_line(lines: Seq<Seq<char>>, from: int) -> Option<int>
    decreases lines.len() - from,
{
    if from < 0 || from >= lines.len() {
        None
    } else if header_token(lines[from]).is_some() {
        Some(from)
    } else {
        header_line(lines, from + 1)
    }
}

/// The samples that the lines hold, in the order of the lines.
pub open spec fn samples_of(lines: Seq<Seq<char>>) -> Seq<Sample>
    decreases lines.len(),
{
    if lines.len() == 0 {
        Seq::empty()
    } else {
        match sample_of(lines.last()) {
            Some(sample) => samples_of(lines.drop_last()).push(sample),
            None => samples_of(lines.drop_last()),
        }
    }
}

/// Every sample is made of channel numerals.
pub open spec fn all_numerals(samples: Seq<Sample>) -> bool {
    forall|k: int| 0 <= k < samples.len() ==> (#[trigger] samples[k]).wf()
}

/// The table of the given samples, or `SizeMismatch` where their number is
/// no multiple of the edge size.
pub open spec fn assembled(edge_size: usize, samples: Seq<Sample>) -> Result<CubeModel, ParseError> {
    if samples.len() % (edge_size as nat) != 0 {
        Err(ParseError::SizeMismatch { actual: samples.len() as usize, edge_size })
    } else {
        Ok(
            CubeModel {
                edge_size: edge_size as nat,
                samples,
                slice_count: samples.len() / (edge_size as nat * edge_size as nat),
            },
        )
    }
}

/// Whether the patterns that reading in `mode` uses compile.
pub open spec fn patterns_compile(mode: Mode) -> bool {
    &&& regex_compiles(SIZE_PATTERN@)
    &&& regex_compiles(SAMPLE_PATTERN@)
    &&& mode == Mode::Strict ==> regex_compiles(NUMERIC_PATTERN@)
}

/// Whether the line starts like a number and is no sample line.
pub open spec fn is_malformed(line: Seq<char>) -> bool {
    sample_of(line).is_none() && regex_captures(NUMERIC_PATTERN@, line).is_some()
}

/// Whether one of the lines starts like a number and is no sample line.
pub open spec fn any_malformed(lines: Seq<Seq<char>>) -> bool {
    exists|i: int| 0 <= i < lines.len() && is_malformed(#[trigger] lines[i])
}

/// What reading the lines gives.
///
/// The first line that matches the header pattern declares the edge size.
/// Every later line that matches the sample pattern holds one sample. The
/// other lines are passed over, but that in strict mode one that starts
/// like a number is an error.
pub open spec fn parse_outcome(lines: Seq<Seq<char>>, mode: Mode) -> Result<CubeModel, ParseError> {
    if !patterns_compile(mode) {
        Err(ParseError::Pattern)
    } else {
        match header_line(lines, 0) {
            None => Err(ParseError::MissingSizeHeader),
            Some(h) => match size_of_token(header_token(lines[h]).unwrap()) {
                None => Err(ParseError::NumberFormat),
                Some(edge_size) => {
                    let rest = lines.subrange(h + 1, lines.len() as int);
                    if !all_numerals(samples_of(rest)) || (mode == Mode::Strict && any_malformed(
                        rest,
                    )) {
                        Err(ParseError::NumberFormat)
                    } else {
                        assembled(edge_size, samples_of(rest))
                    }
                },
            },
        }
    }
}

/// Whether `r` is the outcome `expected`, the table taken by its value.
pub open spec fn is_parse_outcome(r: Result<Cube, ParseError>, expected: Result<CubeModel, ParseError>) -> bool {
    match (r, expected) {
        (Ok(cube), Ok(model)) => cube@ == model && cube@.wf(),
        (Err(e), Err(f)) => e == f,
        _ => false,
    }
}

/// The samples of the first lines are the first samples of all the lines.
pub proof fn lemma_samples_prefix(lines: Seq<Seq<char>>, n: int)
    requires
        0 <= n <= lines.len(),
    ensures
        samples_of(lines.take(n)).len() <= samples_of(lines).len(),
        samples_of(lines.take(n)) == samples_of(lines).take(samples_of(lines.take(n)).len() as int),
    decreases lines.len(),
{
    if n == lines.len() {
        assert(lines.take(n) =~= lines);
        assert(samples_of(lines).take(samples_of(lines).len() as int) =~= samples_of(lines));
    } else {
        assert(lines.drop_last().take(n) =~= lines.take(n));
        lemma_samples_prefix(lines.drop_last(), n);
        let shorter = samples_of(lines.drop_last());
        let first = samples_of(lines.take(n));
        assert(samples_of(lines).take(first.len() as int) =~= shorter.take(first.len() as int));
    }
}

/// The text of group `k` of a match; empty where the match has no such
/// group.
pub fn group<'a>(groups: &'a Groups, k: usize) -> (t: &'a str)
    ensures
        t@ == group_text(groups_view(*groups), k as int),
{
    proof {
        reveal_strlit("");
    }
    if k < groups.len() {
        match &groups[k] {
            Some(s) => s.as_str(),
            None => "",
        }
    } else {
        ""
    }
}

impl Color {
    /// The sample of a match of the sample pattern: its groups 1, 2 and 3
    /// are the channels. `None` where one of them is no channel numeral.
    pub fn from_groups(groups: &Groups) -> (c: Option<Color>)
        ensures
            c.is_some() == (Sample {
                red: group_text(groups_view(*groups), 1),
                green: group_text(groups_view(*groups), 2),
                blue: group_text(groups_view(*groups), 3),
            }).wf(),
            c matches Some(color) ==> color@ == (Sample {
                red: group_text(groups_view(*groups), 1),
                green: group_text(groups_view(*groups), 2),
                blue: group_text(groups_view(*groups), 3),
            }),
    {
        Color::new(group(groups, 1), group(groups, 2), group(groups, 3))
    }
}

/// The number of whole slices of `size` by `size` samples among `count`
/// samples.
fn whole_slices(count: usize, size: usize) -> (slices: usize)
    requires
        size >= 1,
    ensures
        slices == count as int / (size as int * size as int),
{
    assert(size as int * size as int >= 1) by (nonlinear_arith)
        requires
            size >= 1,
    ;
    match size.checked_mul(size) {
        Some(area) => count / area,
        None => {
            assert(count as int / (size as int * size as int) == 0) by (nonlinear_arith)
                requires
                    0 <= count < size as int * size as int,
            ;
            0
        },
    }
}

impl Cube {
    /// The table of the given samples.
    ///
    /// Fails with `SizeMismatch` where the number of samples is no
    /// multiple of `size`.
    pub fn assemble(size: usize, values: Vec<Color>) -> (r: Result<Cube, ParseError>)
        requires
            size >= 1,
        ensures
            is_parse_outcome(r, assembled(size, samples_view(values@))),
            r.is_ok() <==> values@.len() % (size as nat) == 0,
            r matches Err(e) ==> e == (ParseError::SizeMismatch {
                actual: values@.len() as usize,
                edge_size: size,
            }) && values@.len() <= usize::MAX,
    {
        let count = values.len();
        if count % size != 0 {
            return Err(ParseError::SizeMismatch { actual: count, edge_size: size });
        }
        let n_images = whole_slices(count, size);
        Ok(Cube { size, values, n_images })
    }
}

/// Finds the first header among the lines: its index and its groups.
fn find_header(header: &regex::Regex, lines: &[String]) -> (found: Option<(usize, Groups)>)
    requires
        regex_pattern(*header) == SIZE_PATTERN@,
    ensures
        match found {
            Some((h, groups)) => {
                &&& h < lines@.len() <= usize::MAX
                &&& header_line(texts(lines@), 0) == Some(h as int)
                &&& regex_captures(SIZE_PATTERN@, texts(lines@)[h as int]) == Some(
                    groups_view(groups),
                )
            },
            None => header_line(texts(lines@), 0).is_none(),
        },
{
    let mut i: usize = 0;
    while i < lines.len()
        invariant
            0 <= i <= lines@.len(),
            regex_pattern(*header) == SIZE_PATTERN@,
            header_line(texts(lines@), 0) == header_line(texts(lines@), i as int),
        decreases lines@.len() - i,
    {
        assert(texts(lines@)[i as int] == lines@[i as int]@);
        match captures(header, lines[i].as_str()) {
            Some(groups) => {
                return Some((i, groups));
            },
            None => {},
        }
        i += 1;
    }
    None
}

/// Collects the samples of the lines from `from` on. With `numeric`, the
/// pattern of a line that starts like a number, such a line is an error
/// where it is no sample line.
fn collect_samples(
    sample: &regex::Regex,
    numeric: Option<&regex::Regex>,
    lines: &[String],
    from: usize,
) -> (r: Result<Vec<Color>, ParseError>)
    requires
        regex_pattern(*sample) == SAMPLE_PATTERN@,
        numeric matches Some(re) ==> regex_pattern(*re) == NUMERIC_PATTERN@,
        from <= lines@.len(),
    ensures
        match r {
            Ok(values) => {
                &&& samples_view(values@) == samples_of(
                    texts(lines@).subrange(from as int, lines@.len() as int),
                )
                &&& all_numerals(samples_view(values@))
                &&& numeric.is_some() ==> !any_malformed(
                    texts(lines@).subrange(from as int, lines@.len() as int),
                )
            },
            Err(e) => {
                &&& e == ParseError::NumberFormat
                &&& !all_numerals(
                    samples_of(texts(lines@).subrange(from as int, lines@.len() as int)),
                ) || (numeric.is_some() && any_malformed(
                    texts(lines@).subrange(from as int, lines@.len() as int),
                ))
            },
        },
{
    let ghost all = texts(lines@).subrange(from as int, lines@.len() as int);
    let mut values: Vec<Color> = Vec::new();
    let mut j: usize = from;
    assert(texts(lines@).subrange(from as int, from as int) =~= Seq::<Seq<char>>::empty());
    assert(samples_view(values@) =~= Seq::<Sample>::empty());
    while j < lines.len()
        invariant
            from <= j <= lines@.len(),
            regex_pattern(*sample) == SAMPLE_PATTERN@,
            numeric matches Some(re) ==> regex_pattern(*re) == NUMERIC_PATTERN@,
            all == texts(lines@).subrange(from as int, lines@.len() as int),
            samples_view(values@) == samples_of(texts(lines@).subrange(from as int, j as int)),
            all_numerals(samples_view(values@)),
            numeric.is_some() ==> forall|i: int|
                0 <= i < j - from ==> !is_malformed(#[trigger] all[i]),
        decreases lines@.len() - j,
    {
        let ghost before = texts(lines@).subrange(from as int, j as int);
        let ghost upto = texts(lines@).subrange(from as int, j + 1);
        proof {
            assert(texts(lines@)[j as int] == lines@[j as int]@);
            assert(upto.drop_last() =~= before);
            assert(upto.last() == lines@[j as int]@);
            assert(all.take(j + 1 - from) =~= upto);
            assert(all[j - from] == lines@[j as int]@);
            lemma_samples_prefix(all, j + 1 - from);
        }
        match captures(sample, lines[j].as_str()) {
            Some(groups) => {
                let ghost held = samples_view(values@);
                match Color::from_groups(&groups) {
                    Some(color) => {
                        values.push(color);
                        assert(samples_view(values@) =~= held.push(color@));
                        assert(all_numerals(samples_view(values@))) by {
                            assert forall|k: int|
                                0 <= k < samples_view(values@).len() implies (
                            #[trigger] samples_view(values@)[k]).wf() by {
                                if k < held.len() {
                                    assert(held[k].wf());
                                }
                            }
                        }
                    },
                    None => {
                        proof {
                            let bad = sample_of(lines@[j as int]@).unwrap();
                            assert(samples_of(upto) == held.push(bad));
                            assert(samples_of(upto)[held.len() as int] == bad);
                            assert(samples_of(all)[held.len() as int] == bad);
                        }
                        return Err(ParseError::NumberFormat);
                    },
                }
            },
            None => match numeric {
                Some(re) => {
                    if captures(re, lines[j].as_str()).is_some() {
                        assert(is_malformed(all[j - from]));
                        return Err(ParseError::NumberFormat);
                    }
                },
                None => {},
            },
        }
        j += 1;
    }
    assert(texts(lines@).subrange(from as int, j as int) == all);
    Ok(values)
}

impl Cube {
    /// Reads a table from the lines of a `.cube` text, in the given mode.
    ///
    /// The first line that matches [`SIZE_PATTERN`] declares the edge
    /// size; without one the result is `MissingSizeHeader`. Every later
    /// line that matches [`SAMPLE_PATTERN`] gives one sample. All other
    /// lines are passed over, but that in strict mode a line that matches
    /// [`NUMERIC_PATTERN`] gives `NumberFormat`. An edge size that is no
    /// positive number of a `usize` gives `NumberFormat`, and so does a
    /// channel that is no channel numeral. A number of samples that is no
    /// multiple of the edge size gives `SizeMismatch`.
    pub fn parse_with(lines: &[String], mode: Mode) -> (r: Result<Cube, ParseError>)
        ensures
            is_parse_outcome(r, parse_outcome(texts(lines@), mode)),
            r matches Ok(cube) ==> cube@.wf() && all_numerals(cube@.samples),
            r matches Err(ParseError::SizeMismatch { actual, edge_size }) ==> edge_size >= 1
                && actual % edge_size != 0,
            patterns_compile(mode) && (forall|i: int|
                0 <= i < lines@.len() ==> header_token(#[trigger] texts(lines@)[i]).is_none())
                ==> r == Err::<Cube, ParseError>(ParseError::MissingSizeHeader),
    {
        proof {
            lemma_header_line(texts(lines@), 0);
        }
        let header = match compile(SIZE_PATTERN) {
            Ok(re) => re,
            Err(_) => {
                return Err(ParseError::Pattern);
            },
        };
        let sample = match compile(SAMPLE_PATTERN) {
            Ok(re) => re,
            Err(_) => {
                return Err(ParseError::Pattern);
            },
        };
        let numeric = match mode {
            Mode::Lenient => None,
            Mode::Strict => match compile(NUMERIC_PATTERN) {
                Ok(re) => Some(re),
                Err(_) => {
                    return Err(ParseError::Pattern);
                },
            },
        };
        match find_header(&header, lines) {
            None => Err(ParseError::MissingSizeHeader),
            Some((at, groups)) => match parse_size(group(&groups, 1)) {
                None => Err(ParseError::NumberFormat),
                Some(size) => match collect_samples(&sample, numeric.as_ref(), lines, at + 1) {
                    Ok(values) => Cube::assemble(size, values),
                    Err(e) => Err(e),
                },
            },
        }
    }

    /// Reads a table from the lines of a `.cube` text, passing over every
    /// line that is neither the header nor a sample line.
    pub fn parse(lines: &[String]) -> (r: Result<Cube, ParseError>)
        ensures
            is_parse_outcome(r, parse_outcome(texts(lines@), Mode::Lenient)),
            r matches Ok(cube) ==> cube@.wf() && all_numerals(cube@.samples),
            r matches Err(ParseError::SizeMismatch { actual, edge_size }) ==> edge_size >= 1
                && actual % edge_size != 0,
            patterns_compile(Mode::Lenient) && (forall|i: int|
                0 <= i < lines@.len() ==> header_token(#[trigger] texts(lines@)[i]).is_none())
                ==> r == Err::<Cube, ParseError>(ParseError::MissingSizeHeader),
    {
        Cube::parse_with(lines, Mode::Lenient)
    }

    /// Reads a table from the lines of a `.cube` text, and rejects with
    /// `NumberFormat` a line after the header that starts like a number
    /// and is no sample line.
    pub fn parse_strict(lines: &[String]) -> (r: Result<Cube, ParseError>)
        ensures
            is_parse_outcome(r, parse_outcome(texts(lines@), Mode::Strict)),
            r matches Ok(cube) ==> cube@.wf() && all_numerals(cube@.samples),
    {
        Cube::parse_with(lines, Mode::Strict)
    }
}

/// The place among the samples of the sample at column `x`, row `y` of
/// slice `slice`.
pub open spec fn flat_index(edge: nat, slice: int, x: int, y: int) -> int {
    x + y * edge + edge * edge * slice
}

/// The tile of slice `slice`: `edge` by `edge` pixels, the pixel at column
/// `x`, row `y` being the shade of the sample at `flat_index`.
pub open spec fn tile(edge: nat, shades: Seq<Pixel>, slice: int) -> Raster {
    Raster {
        width: edge,
        height: edge,
        pixels: Map::new(
            |c: (int, int)| 0 <= c.0 < edge && 0 <= c.1 < edge,
            |c: (int, int)| shades[flat_index(edge, slice, c.0, c.1)],
        ),
    }
}

/// The tiles of a table, one a slice and in the order of the slices, each
/// resampled to the target side where there is one.
pub open spec fn rendered(cube: CubeModel, shades: Seq<Pixel>, target: Option<u32>) -> Seq<Raster> {
    Seq::new(
        cube.slice_count,
        |i: int|
            match target {
                Some(side) => tile(cube.edge_size, shades, i).resized(side),
                None => tile(cube.edge_size, shades, i),
            },
    )
}

/// The side of the tiles of a table.
pub open spec fn tile_side(cube: CubeModel, target: Option<u32>) -> nat {
    match target {
        Some(side) => Raster::resampled_side(side),
        None => cube.edge_size,
    }
}

/// Whether the tiles of the table can be made: the edge size is a `u32`,
/// and a tile can be allocated, and resampled where a target is given.
pub open spec fn renderable(cube: CubeModel, target: Option<u32>) -> bool {
    cube.slice_count > 0 ==> {
        &&& cube.edge_size <= u32::MAX
        &&& can_hold(cube.edge_size, cube.edge_size)
        &&& target matches Some(side) ==> can_resample(cube.edge_size, side)
    }
}

/// Whether the row of the tiles of the table can be made: the tiles can
/// and, where there are two or more, the width of the row is a `u32` and
/// the row can be allocated.
pub open spec fn presentable(cube: CubeModel, target: Option<u32>) -> bool {
    &&& renderable(cube, target)
    &&& cube.slice_count > 1 ==> {
        &&& tile_side(cube, target) * cube.slice_count <= u32::MAX
        &&& can_hold(tile_side(cube, target) * cube.slice_count, tile_side(cube, target))
    }
}

/// Every pixel of every tile has its sample: for a slice of the table and
/// a column and a row below the edge size, `flat_index` lies within the
/// samples.
pub proof fn lemma_flat_index_in_range(cube: CubeModel, slice: int, x: int, y: int)
    requires
        cube.wf(),
        0 <= slice < cube.slice_count,
        0 <= x < cube.edge_size,
        0 <= y < cube.edge_size,
    ensures
        0 <= flat_index(cube.edge_size, slice, x, y) < cube.samples.len(),
        cube.edge_size * cube.edge_size * slice + cube.edge_size * cube.edge_size
            <= cube.samples.len(),
        cube.edge_size * cube.edge_size >= 1,
        0 <= y * cube.edge_size,
        y * cube.edge_size + cube.edge_size <= cube.edge_size * cube.edge_size,
        0 <= cube.edge_size * cube.edge_size * slice,
{
    let edge = cube.edge_size as int;
    let len = cube.samples.len() as int;
    let area = edge * edge;
    let count = cube.slice_count as int;
    assert(area >= 1) by (nonlinear_arith)
        requires
            area == edge * edge,
            edge >= 1,
    ;
    lemma_fundamental_div_mod(len, area);
    assert(area * (slice + 1) <= len) by (nonlinear_arith)
        requires
            len == area * count + len % area,
            0 <= len % area,
            0 <= slice < count,
            area >= 1,
    ;
    assert(0 <= y * edge && y * edge + edge <= area) by (nonlinear_arith)
        requires
            area == edge * edge,
            0 <= y < edge,
    ;
    assert(0 <= area * slice && area * (slice + 1) == area * slice + area) by (nonlinear_arith)
        requires
            area >= 1,
            0 <= slice,
    ;
}

impl Cube {
    /// Renders one slice as a tile.
    fn render_tile(&self, shades: &[Pixel], slice: usize) -> (img: Image)
        requires
            self@.wf(),
            shades.len() == self.values@.len(),
            slice < self.n_images,
            self.size <= u32::MAX,
            can_hold(self.size as nat, self.size as nat),
        ensures
            img@ == tile(self.size as nat, shades@, slice as int),
            img@.wf(),
    {
        let size = self.size;
        let edge: u32 = size as u32;
        proof {
            assert(self@.samples.len() == self.values@.len());
            lemma_flat_index_in_range(self@, slice as int, 0, 0);
        }
        let area = size * size;
        let base = area * slice;
        let mut img = Image::new(edge, edge);
        let mut y: usize = 0;
        while y < size
            invariant
                self@.wf(),
                shades.len() == self.values@.len(),
                slice < self.n_images,
                size == self.size,
                edge == size,
                area == size * size,
                base == area * slice,
                base + area <= shades.len(),
                0 <= y <= size,
                img@.width == size,
                img@.height == size,
                img@.wf(),
                forall|xx: int, yy: int|
                    0 <= xx < size && 0 <= yy < y ==> #[trigger] img@.pixels[(xx, yy)] == shades@[flat_index(
                        size as nat,
                        slice as int,
                        xx,
                        yy,
                    )],
            decreases size - y,
        {
            proof {
                assert(self@.samples.len() == self.values@.len());
                lemma_flat_index_in_range(self@, slice as int, 0, y as int);
            }
            let row = base + y * size;
            let mut x: usize = 0;
            while x < size
                invariant
                    size == self.size,
                    edge == size,
                    size <= u32::MAX,
                    row == size * size * slice + y * size,
                    row + size <= shades.len(),
                    0 <= y < size,
                    0 <= x <= size,
                    img@.width == size,
                    img@.height == size,
                    img@.wf(),
                    forall|xx: int, yy: int|
                        0 <= xx < size && 0 <= yy < y ==> #[trigger] img@.pixels[(xx, yy)]
                            == shades@[flat_index(size as nat, slice as int, xx, yy)],
                    forall|xx: int|
                        0 <= xx < x ==> #[trigger] img@.pixels[(xx, y as int)] == shades@[flat_index(
                            size as nat,
                            slice as int,
                            xx,
                            y as int,
                        )],
                decreases size - x,
            {
                put_pixel(&mut img, x as u32, y as u32, shades[row + x]);
                x += 1;
            }
            y += 1;
        }
        proof {
            assert(tile(size as nat, shades@, slice as int).wf());
            lemma_raster_ext(img@, tile(size as nat, shades@, slice as int));
        }
        img
    }

    /// Renders the slices of the table as tiles, in the order of the
    /// slices.
    ///
    /// `shades[k]` is the 8-bit colour of sample `k`. The pixel at column
    /// `x`, row `y` of tile `i` is the shade of the sample at
    /// `x + y * size + size * size * i`. With a target size every tile is
    /// then resampled to that side with the triangle filter, and stays at
    /// its place.
    pub fn render(&self, shades: &[Pixel], target_size: Option<u32>) -> (tiles: Vec<Image>)
        requires
            self@.wf(),
            shades.len() == self@.samples.len(),
            renderable(self@, target_size),
        ensures
            tiles@.len() == self.n_images,
            rasters(tiles@) == rendered(self@, shades@, target_size),
            forall|i: int| 0 <= i < tiles@.len() ==> (#[trigger] tiles@[i])@.wf(),
            forall|i: int|
                0 <= i < tiles@.len() ==> (#[trigger] tiles@[i])@.width == tile_side(
                    self@,
                    target_size,
                ) && tiles@[i]@.height == tile_side(self@, target_size),
            target_size.is_none() ==> forall|i: int, x: int, y: int|
                0 <= i < tiles@.len() && 0 <= x < self.size && 0 <= y < self.size
                    ==> #[trigger] tiles@[i]@.pixels[(x, y)] == shades@[x + y * self.size
                    + self.size * self.size * i],
            target_size matches Some(side) ==> forall|i: int|
                0 <= i < tiles@.len() ==> (#[trigger] tiles@[i])@ == tile(
                    self.size as nat,
                    shades@,
                    i,
                ).resized(side),
    {
        let mut tiles: Vec<Image> = Vec::new();
        let mut i: usize = 0;
        while i < self.n_images
            invariant
                self@.wf(),
                shades.len() == self.values@.len(),
                renderable(self@, target_size),
                0 <= i <= self.n_images,
                tiles@.len() == i,
                forall|k: int|
                    0 <= k < i ==> (#[trigger] tiles@[k])@ == tile(self.size as nat, shades@, k)
                        && tiles@[k]@.wf(),
            decreases self.n_images - i,
        {
            let img = self.render_tile(shades, i);
            tiles.push(img);
            i += 1;
        }
        match target_size {
            Some(side) => {
                resize_each(&mut tiles, side);
            },
            None => {},
        }
        assert(rasters(tiles@) =~= rendered(self@, shades@, target_size));
        assert forall|i: int| 0 <= i < tiles@.len() implies (#[trigger] tiles@[i])@ == rendered(
            self@,
            shades@,
            target_size,
        )[i] by {
            assert(rasters(tiles@)[i] == tiles@[i]@);
        }
        tiles
    }

    /// Renders the table as one row: the tiles of [`Cube::render`] side by
    /// side, the first slice leftmost.
    ///
    /// Fails with `EmptyInput` where the table has no slice.
    pub fn generate_image(&self, shades: &[Pixel], target_size: Option<u32>) -> (r: Result<
        Image,
        StackError,
    >)
        requires
            self@.wf(),
            shades.len() == self@.samples.len(),
            presentable(self@, target_size),
        ensures
            is_outcome(
                r,
                stack_outcome(rendered(self@, shades@, target_size), Axis::Horizontal),
            ),
            self.n_images == 0 ==> r == Err::<Image, StackError>(StackError::EmptyInput),
            r.is_ok() <==> self.n_images > 0,
            r matches Ok(row) ==> is_row_of(row@, rendered(self@, shades@, target_size)),
    {
        let tiles = self.render(shades, target_size);
        assert(uniform(rasters(tiles@))) by {
            assert forall|i: int| 0 <= i < rasters(tiles@).len() implies (#[trigger] rasters(
                tiles@,
            )[i]).width == rasters(tiles@)[0].width && rasters(tiles@)[i].height == rasters(
                tiles@,
            )[0].height by {
                assert(rasters(tiles@)[i] == tiles@[i]@);
                assert(rasters(tiles@)[0] == tiles@[0]@);
            }
        }
        horizontal_stack(tiles.as_slice())
    }
}

impl Cube {
    /// Whether the table is well formed: the edge size is positive and
    /// divides the number of samples, and `n_images` is the number of
    /// whole slices among them.
    pub fn is_well_formed(&self) -> (b: bool)
        ensures
            b == self@.wf(),
    {
        if self.size == 0 {
            return false;
        }
        let count = self.values.len();
        assert(self@.samples.len() == count);
        count % self.size == 0 && whole_slices(count, self.size) == self.n_images
    }

    /// Whether the row of the tiles of the table can be made with the
    /// given target size.
    pub fn fits(&self, target_size: Option<u32>) -> (b: bool)
        ensures
            b == presentable(self@, target_size),
    {
        if self.n_images == 0 {
            return true;
        }
        if self.size > u32::MAX as usize {
            return false;
        }
        let edge = self.size as u32;
        if !Image::can_hold(edge, edge) {
            return false;
        }
        let side: u32 = match target_size {
            None => edge,
            Some(target) => {
                if !Image::can_resample(edge, target) {
                    return false;
                }
                if target == 0 {
                    1
                } else {
                    target
                }
            },
        };
        if self.n_images == 1 {
            return true;
        }
        assert(side * self.n_images <= 0xffff_ffff * 0xffff_ffff_ffff_ffff) by (nonlinear_arith)
            requires
                0 <= side <= 0xffff_ffff,
                0 <= self.n_images <= 0xffff_ffff_ffff_ffff,
        ;
        let total: u128 = (side as u128) * (self.n_images as u128);
        if total > u32::MAX as u128 {
            return false;
        }
        Image::can_hold(total as u32, side)
    }
}

/// The first header among the lines from `from` on is the first line
/// there that matches the header pattern, and there is none only where no
/// line matches.
pub proof fn lemma_header_line(lines: Seq<Seq<char>>, from: int)
    requires
        0 <= from,
    ensures
        match header_line(lines, from) {
            Some(h) => {
                &&& from <= h < lines.len()
                &&& header_token(lines[h]).is_some()
                &&& forall|i: int| from <= i < h ==> header_token(#[trigger] lines[i]).is_none()
            },
            None => forall|i: int|
                from <= i < lines.len() ==> header_token(#[trigger] lines[i]).is_none(),
        },
    decreases lines.len() - from,
{
    if from < lines.len() && header_token(lines[from]).is_none() {
        lemma_header_line(lines, from + 1);
    }
}

/// Lines of which none is a header give `MissingSizeHeader`, whatever
/// else they hold and in either mode.
pub proof fn lemma_missing_header(lines: Seq<Seq<char>>, mode: Mode)
    requires
        patterns_compile(mode),
        forall|i: int| 0 <= i < lines.len() ==> header_token(#[trigger] lines[i]).is_none(),
    ensures
        parse_outcome(lines, mode) == Err::<CubeModel, ParseError>(ParseError::MissingSizeHeader),
{
    lemma_header_line(lines, 0);
}

/// Samples whose number is no multiple of the declared edge size give
/// `SizeMismatch`, which names both numbers; a number that is a multiple,
/// zero too, gives a table.
pub proof fn lemma_size_mismatch(lines: Seq<Seq<char>>, mode: Mode, h: int, edge_size: usize)
    requires
        patterns_compile(mode),
        header_line(lines, 0) == Some(h),
        size_of_token(header_token(lines[h]).unwrap()) == Some(edge_size),
        all_numerals(samples_of(lines.subrange(h + 1, lines.len() as int))),
        mode == Mode::Strict ==> !any_malformed(lines.subrange(h + 1, lines.len() as int)),
    ensures
        samples_of(lines.subrange(h + 1, lines.len() as int)).len() % (edge_size as nat) == 0
            ==> parse_outcome(lines, mode).is_ok(),
        samples_of(lines.subrange(h + 1, lines.len() as int)).len() % (edge_size as nat) != 0
            ==> parse_outcome(lines, mode) == Err::<CubeModel, ParseError>(
            ParseError::SizeMismatch {
                actual: samples_of(lines.subrange(h + 1, lines.len() as int)).len() as usize,
                edge_size,
            },
        ),
{
}

/// A table that was read is well formed: its edge size is positive and
/// divides the number of its samples, its slice count is the number of
/// whole slices, and its samples are made of channel numerals.
pub proof fn lemma_parsed_is_wf(lines: Seq<Seq<char>>, mode: Mode)
    ensures
        parse_outcome(lines, mode) matches Ok(cube) ==> cube.wf() && all_numerals(cube.samples),
{
}

/// Without a target size there is one tile a slice, `edge_size` pixels
/// wide and high, and its pixel at column `x`, row `y` is the shade of the
/// sample at `x + y * edge_size + edge_size * edge_size * slice`, which is
/// one of the samples.
pub proof fn lemma_rendered_plain(cube: CubeModel, shades: Seq<Pixel>, slice: int, x: int, y: int)
    requires
        cube.wf(),
        0 <= slice < cube.slice_count,
        0 <= x < cube.edge_size,
        0 <= y < cube.edge_size,
    ensures
        rendered(cube, shades, None).len() == cube.slice_count,
        rendered(cube, shades, None)[slice].width == cube.edge_size,
        rendered(cube, shades, None)[slice].height == cube.edge_size,
        rendered(cube, shades, None)[slice].pixels[(x, y)] == shades[x + y * cube.edge_size
            + cube.edge_size * cube.edge_size * slice],
        0 <= x + y * cube.edge_size + cube.edge_size * cube.edge_size * slice < cube.samples.len(),
{
    lemma_flat_index_in_range(cube, slice, x, y);
}

/// With a target size there is one tile a slice as well, and tile `i` is
/// the resampled tile `i` of the rendering without a target size: the
/// order of the slices is kept. For a target of 1 or more every tile is
/// `side` pixels wide and high.
pub proof fn lemma_rendered_resized(cube: CubeModel, shades: Seq<Pixel>, side: u32, slice: int)
    requires
        0 <= slice < cube.slice_count,
    ensures
        rendered(cube, shades, Some(side)).len() == cube.slice_count,
        rendered(cube, shades, Some(side))[slice] == rendered(cube, shades, None)[slice].resized(
            side,
        ),
        side >= 1 ==> rendered(cube, shades, Some(side))[slice].width == side && rendered(
            cube,
            shades,
            Some(side),
        )[slice].height == side,
{
}

} // verus!
