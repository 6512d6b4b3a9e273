//! Streams of JSON lines, read from chunks of bytes.

use crate::client::result::{ActionResult, CarriedView, ErrorBody, ErrorBodyView};
use crate::json;
use crate::json::{Json, JsonView};
use crate::views;
use vstd::prelude::*;

verus! {

/// One line of a stream.
#[derive(Debug)]
pub enum WireFrame {
    /// An item.
    Next {
        /// The item's data, where it has any.
        data: Option<Json>,
    },
    /// The stream failed.
    Error {
        /// What went wrong.
        error: ErrorBody,
    },
    /// The stream is over.
    End,
}

/// What the lines of a stream mean.
#[verifier::ext_equal]
pub enum LineView {
    /// A result, with its data where it has any; the stream goes on.
    Item(Option<JsonView>),
    /// The last result of the stream.
    Failure(ErrorBodyView),
    /// The end of the stream.
    End,
    /// Nothing: a blank line, or one that is no frame.
    Nothing,
}

/// What a JSON value means as a line, by its `type`. An array lists the type and
/// what goes with it, and leaves nothing out.
pub open spec fn line_of_value(value: JsonView) -> LineView {
    match value.text_part("type"@, 0) {
        None => LineView::Nothing,
        Some(kind) => if kind == "next"@ {
            match value.part("data"@, 1) {
                Some(data) => if value.fits(2) {
                    LineView::Item(Some(data))
                } else {
                    LineView::Nothing
                },
                None => if value is Array {
                    LineView::Nothing
                } else {
                    LineView::Item(None)
                },
            }
        } else if kind == "error"@ {
            match value.part("error"@, 1) {
                Some(error) => match crate::client::result::error_body_of(error) {
                    Some(body) => if value.fits(2) {
                        LineView::Failure(body)
                    } else {
                        LineView::Nothing
                    },
                    None => LineView::Nothing,
                },
                None => LineView::Nothing,
            }
        } else if kind == "end"@ {
            if value.fits(1) {
                LineView::End
            } else {
                LineView::Nothing
            }
        } else {
            LineView::Nothing
        },
    }
}

/// What a line means. Of a member that is written twice in one object the last
/// counts.
pub open spec fn line_of(line: Seq<u8>) -> LineView {
    if line.len() == 0 {
        LineView::Nothing
    } else {
        match json::json_of_bytes(line) {
            Ok(value) => line_of_value(value),
            Err(_) => LineView::Nothing,
        }
    }
}

/// What a frame means, where there is one.
pub open spec fn frame_view(frame: Option<WireFrame>) -> LineView {
    match frame {
        Some(WireFrame::Next { data }) => LineView::Item(views::optional(data)),
        Some(WireFrame::Error { error }) => LineView::Failure(error@),
        Some(WireFrame::End) => LineView::End,
        None => LineView::Nothing,
    }
}

/// Reads a frame from a JSON value, where it is one.
pub fn read_line_value(value: &Json) -> (frame: Option<WireFrame>)
    ensures
        frame_view(frame) == line_of_value(value@),
{
    let kind = match value.str_part("type", 0) {
        Some(kind) => kind,
        None => {
            return None;
        },
    };
    if *kind == *"next" {
        match value.part("data", 1) {
            Some(data) => if value.fits(2) {
                Some(WireFrame::Next { data: Some(data.clone()) })
            } else {
                None
            },
            None => if value.is_array() {
                None
            } else {
                Some(WireFrame::Next { data: None })
            },
        }
    } else if *kind == *"error" {
        match value.part("error", 1) {
            Some(error) => match ErrorBody::from_value(error) {
                Some(error) => if value.fits(2) {
                    Some(WireFrame::Error { error })
                } else {
                    None
                },
                None => None,
            },
            None => None,
        }
    } else if *kind == *"end" {
        if value.fits(1) {
            Some(WireFrame::End)
        } else {
            None
        }
    } else {
        None
    }
}

fn read_line(line: &[u8]) -> (frame: Option<WireFrame>)
    ensures
        frame_view(frame) == line_of(line@),
{
    if line.len() == 0 {
        return None;
    }
    match Json::parse_bytes(line) {
        Ok(value) => read_line_value(&value),
        Err(_) => None,
    }
}

/// The length of the first line with its newline, where the bytes hold one.
pub open spec fn first_line(bytes: Seq<u8>) -> Option<nat>
    decreases bytes.len(),
{
    if bytes.len() == 0 {
        None
    } else if bytes[0] == 10 {
        Some(1)
    } else {
        match first_line(bytes.drop_first()) {
            Some(n) => Some(n + 1),
            None => None,
        }
    }
}

/// The first line ends with the first newline.
pub proof fn lemma_first_line(bytes: Seq<u8>)
    ensures
        match first_line(bytes) {
            Some(n) => {
                &&& 1 <= n <= bytes.len()
                &&& bytes[n - 1] == 10
                &&& forall|j: int| 0 <= j < n - 1 ==> (#[trigger] bytes[j]) != 10
            },
            None => forall|j: int| 0 <= j < bytes.len() ==> (#[trigger] bytes[j]) != 10,
        },
    decreases bytes.len(),
{
    if bytes.len() > 0 && bytes[0] != 10 {
        let rest = bytes.drop_first();
        lemma_first_line(rest);
        assert forall|j: int|
            0 <= j < (match first_line(rest) {
                Some(n) => n as int,
                None => bytes.len() as int,
            }) implies (#[trigger] bytes[j]) != 10 by {
            if j > 0 {
                assert(rest[j - 1] == bytes[j]);
            }
        }
    }
}

/// Appending bytes leaves a first line as it is.
proof fn lemma_first_line_kept(bytes: Seq<u8>, more: Seq<u8>)
    ensures
        first_line(bytes) is Some ==> first_line(bytes + more) == first_line(bytes),
    decreases bytes.len(),
{
    if bytes.len() > 0 && bytes[0] != 10 {
        lemma_first_line_kept(bytes.drop_first(), more);
        assert((bytes + more).drop_first() =~= bytes.drop_first() + more);
    }
}

/// What is left of a stream, and what it has yielded.
#[verifier::ext_equal]
pub struct StreamView {
    /// Bytes of a line that is not complete.
    pub rest: Seq<u8>,
    /// Whether the stream is over.
    pub done: bool,
    /// The results, in order.
    pub results: Seq<CarriedView>,
}

/// Reads every complete line.
pub open spec fn read_all(state: StreamView) -> StreamView
    decreases state.rest.len(),
{
    if state.done {
        state
    } else {
        match first_line(state.rest) {
            None => state,
            Some(n) => if 1 <= n <= state.rest.len() {
                let rest = state.rest.skip(n as int);
                match line_of(state.rest.take(n - 1)) {
                    LineView::Item(data) => read_all(
                        StreamView {
                            rest,
                            done: false,
                            results: state.results.push(CarriedView::Success(data)),
                        },
                    ),
                    LineView::Failure(error) => StreamView {
                        rest,
                        done: true,
                        results: state.results.push(CarriedView::Failure(error)),
                    },
                    LineView::End => StreamView { rest, done: true, results: state.results },
                    LineView::Nothing => read_all(
                        StreamView { rest, done: false, results: state.results },
                    ),
                }
            } else {
                state
            },
        }
    }
}

/// A chunk reaches the stream.
pub open spec fn fed(state: StreamView, chunk: Seq<u8>) -> StreamView {
    if state.done {
        state
    } else {
        read_all(StreamView { rest: state.rest + chunk, ..state })
    }
}

/// What untyped results stand for.
pub open spec fn result_views(results: Seq<ActionResult<Option<Json>>>) -> Seq<CarriedView> {
    results.map_values(|r: ActionResult<Option<Json>>| crate::client::result::carried_view(r))
}

/// Results only add up.
proof fn lemma_results_grow(state: StreamView)
    ensures
        read_all(state).results.len() >= state.results.len(),
        read_all(state).results.take(state.results.len() as int) == state.results,
        read_all(state).rest.len() <= state.rest.len(),
    decreases state.rest.len(),
{
    assert(state.results.take(state.results.len() as int) =~= state.results);
    if !state.done && first_line(state.rest) is Some {
        lemma_first_line(state.rest);
        let n = first_line(state.rest)->0;
        let rest = state.rest.skip(n as int);
        match line_of(state.rest.take(n - 1)) {
            LineView::Item(data) => {
                let next = StreamView {
                    rest,
                    done: false,
                    results: state.results.push(CarriedView::Success(data)),
                };
                lemma_results_grow(next);
                let after = read_all(next).results;
                assert(after.take(state.results.len() as int) =~= after.take(
                    next.results.len() as int,
                ).take(state.results.len() as int));
                assert(next.results.take(state.results.len() as int) =~= state.results);
            },
            LineView::Failure(error) => {
                let after = state.results.push(CarriedView::Failure(error));
                assert(after.take(state.results.len() as int) =~= state.results);
            },
            LineView::End => {},
            LineView::Nothing => {
                lemma_results_grow(StreamView { rest, done: false, results: state.results });
            },
        }
    }
}

/// Reading what is complete first, and the rest when more has come, reads the
/// same.
proof fn lemma_read_in_two(state: StreamView, more: Seq<u8>)
    requires
        !state.done,
    ensures
        read_all(StreamView { rest: state.rest + more, ..state }).results == fed(
            read_all(state),
            more,
        ).results,
        read_all(StreamView { rest: state.rest + more, ..state }).done == fed(
            read_all(state),
            more,
        ).done,
        !fed(read_all(state), more).done ==> read_all(
            StreamView { rest: state.rest + more, ..state },
        ) == fed(read_all(state), more),
    decreases state.rest.len(),
{
    let longer = StreamView { rest: state.rest + more, ..state };
    match first_line(state.rest) {
        None => {
            assert(read_all(state) == state);
        },
        Some(n) => {
            lemma_first_line(state.rest);
            lemma_first_line_kept(state.rest, more);
            assert(longer.rest.take(n - 1) =~= state.rest.take(n - 1));
            assert(longer.rest.skip(n as int) =~= state.rest.skip(n as int) + more);
            let rest = state.rest.skip(n as int);
            match line_of(state.rest.take(n - 1)) {
                LineView::Item(data) => {
                    lemma_read_in_two(
                        StreamView {
                            rest,
                            done: false,
                            results: state.results.push(CarriedView::Success(data)),
                        },
                        more,
                    );
                },
                LineView::Failure(error) => {},
                LineView::End => {},
                LineView::Nothing => {
                    lemma_read_in_two(
                        StreamView { rest, done: false, results: state.results },
                        more,
                    );
                },
            }
        },
    }
}

/// Where the body is cut into chunks does not matter: two chunks in turn yield
/// what they yield as one.
pub proof fn chunk_boundaries_do_not_matter(state: StreamView, first: Seq<u8>, second: Seq<u8>)
    ensures
        fed(fed(state, first), second).results == fed(state, first + second).results,
        fed(fed(state, first), second).done == fed(state, first + second).done,
{
    if !state.done {
        let joined = StreamView { rest: state.rest + first, ..state };
        lemma_read_in_two(joined, second);
        assert(state.rest + (first + second) =~= joined.rest + second);
    }
}

/// A stream that is over yields nothing more, whatever comes.
pub proof fn nothing_comes_after_the_end(state: StreamView, chunk: Seq<u8>)
    requires
        state.done,
    ensures
        fed(state, chunk) == state,
{
}

/// What has been yielded stays, in order, whatever comes.
pub proof fn results_only_add_up(state: StreamView, chunk: Seq<u8>)
    ensures
        state.results.len() <= fed(state, chunk).results.len(),
        fed(state, chunk).results.take(state.results.len() as int) == state.results,
{
    assert(state.results.take(state.results.len() as int) =~= state.results);
    if !state.done {
        lemma_results_grow(StreamView { rest: state.rest + chunk, ..state });
    }
}

/// The reader of a stream.
pub struct JsonLines {
    buf: Vec<u8>,
    done: bool,
}

impl JsonLines {
    /// The state of the stream, where it has yielded these results.
    pub closed spec fn after(self, results: Seq<CarriedView>) -> StreamView {
        StreamView { rest: self.buf@, done: self.done, results }
    }

    /// A fresh stream.
    pub fn new() -> (lines: JsonLines)
        ensures
            forall|results: Seq<CarriedView>| #[trigger]
                lines.after(results) == (StreamView { rest: Seq::empty(), done: false, results }),
    {
        let lines = JsonLines { buf: Vec::new(), done: false };
        assert(lines.buf@ =~= Seq::empty());
        lines
    }

    /// Whether the stream is over.
    pub fn is_done(&self) -> (done: bool)
        ensures
            done == self.after(Seq::empty()).done,
    {
        self.done
    }

    /// Takes a chunk of the body; the results that its lines complete, in order.
    /// An item without data is a result too: only its type says whether it may
    /// lack any.
    pub fn push_chunk(&mut self, chunk: &[u8]) -> (results: Vec<ActionResult<Option<Json>>>)
        ensures
            final(self).after(result_views(results@)) == fed(
                old(self).after(Seq::empty()),
                chunk@,
            ),
    {
        let mut results: Vec<ActionResult<Option<Json>>> = Vec::new();
        assert(result_views(results@) =~= Seq::empty());
        if self.done {
            return results;
        }
        let ghost start = self.after(Seq::empty());
        let ghost goal = fed(start, chunk@);
        let mut j: usize = 0;
        while j < chunk.len()
            invariant
                j <= chunk@.len(),
                !self.done,
                start.rest + chunk@.take(j as int) == self.buf@,
            decreases chunk@.len() - j,
        {
            self.buf.push(chunk[j]);
            j = j + 1;
            assert(start.rest + chunk@.take(j as int) =~= self.buf@);
        }
        assert(chunk@.take(j as int) =~= chunk@);
        loop
            invariant_except_break
                !self.done,
                read_all(self.after(result_views(results@))) == goal,
            ensures
                self.after(result_views(results@)) == goal,
            decreases self.buf@.len(),
        {
            proof {
                lemma_first_line(self.buf@);
            }
            let len: usize = match line_end(&self.buf) {
                Some(len) => len,
                None => {
                    break;
                },
            };
            let ghost whole = self.buf@;
            let ghost so_far = result_views(results@);
            let line = prefix_of(&self.buf, len - 1);
            self.buf = suffix_of(&self.buf, len);
            match read_line(line.as_slice()) {
                Some(WireFrame::Next { data }) => {
                    results.push(ActionResult::Success(data));
                    assert(result_views(results@) =~= so_far.push(
                        CarriedView::Success(views::optional(data)),
                    ));
                },
                Some(WireFrame::Error { error }) => {
                    self.done = true;
                    results.push(ActionResult::Failure(error));
                    assert(result_views(results@) =~= so_far.push(
                        CarriedView::Failure(error@),
                    ));
                    break;
                },
                Some(WireFrame::End) => {
                    self.done = true;
                    break;
                },
                None => {},
            }
        }
        results
    }
}

/// The length of the first line with its newline, where there is one.
fn line_end(bytes: &Vec<u8>) -> (len: Option<usize>)
    ensures
        first_line(bytes@) == (match len {
            Some(n) => Some(n as nat),
            None => None,
        }),
{
    let mut i: usize = 0;
    proof {
        lemma_first_line(bytes@);
    }
    while i < bytes.len()
        invariant
            i <= bytes@.len(),
            forall|j: int| 0 <= j < i ==> (#[trigger] bytes@[j]) != 10,
            match first_line(bytes@) {
                Some(n) => {
                    &&& 1 <= n <= bytes@.len()
                    &&& bytes@[n - 1] == 10
                    &&& forall|j: int| 0 <= j < n - 1 ==> (#[trigger] bytes@[j]) != 10
                },
                None => forall|j: int| 0 <= j < bytes@.len() ==> (#[trigger] bytes@[j]) != 10,
            },
        decreases bytes@.len() - i,
    {
        if bytes[i] == 10 {
            assert(bytes@[i as int] == 10);
            return Some(i + 1);
        }
        i = i + 1;
    }
    None
}

fn prefix_of(bytes: &Vec<u8>, len: usize) -> (prefix: Vec<u8>)
    requires
        len <= bytes@.len(),
    ensures
        prefix@ == bytes@.take(len as int),
{
    let mut prefix: Vec<u8> = Vec::new();
    let mut i: usize = 0;
    while i < len
        invariant
            i <= len <= bytes@.len(),
            prefix@ == bytes@.take(i as int),
        decreases len - i,
    {
        prefix.push(bytes[i]);
        i = i + 1;
        assert(prefix@ =~= bytes@.take(i as int));
    }
    prefix
}

fn suffix_of(bytes: &Vec<u8>, from: usize) -> (suffix: Vec<u8>)
    requires
        from <= bytes@.len(),
    ensures
        suffix@ == bytes@.skip(from as int),
{
    let mut suffix: Vec<u8> = Vec::new();
    let mut i: usize = from;
    while i < bytes.len()
        invariant
            from <= i <= bytes@.len(),
            suffix@ == bytes@.subrange(from as int, i as int),
        decreases bytes@.len() - i,
    {
        suffix.push(bytes[i]);
        i = i + 1;
        assert(suffix@ =~= bytes@.subrange(from as int, i as int));
    }
    assert(suffix@ =~= bytes@.skip(from as int));
    suffix
}

proof fn lemma_line_kinds_differ()
    ensures
        "next"@ != "error"@,
        "next"@ != "end"@,
        "error"@ != "end"@,
{
    reveal_strlit("next");
    reveal_strlit("error");
    reveal_strlit("end");
    assert("next"@.len() == 4);
    assert("error"@.len() == 5);
    assert("end"@.len() == 3);
}


/// A line means what its type says: a result, with its data where it has any, a
/// failure with its error, or the end. Any other line means nothing.
pub proof fn a_line_means_what_its_type_says(value: JsonView)
    requires
        value is Object,
    ensures
        value.text_at("type"@) == Some("next"@) ==> line_of_value(value) == LineView::Item(
            value.member("data"@),
        ),
        value.text_at("type"@) == Some("error"@) ==> match value.member("error"@) {
            Some(error) => match crate::client::result::error_body_of(error) {
                Some(body) => line_of_value(value) == LineView::Failure(body),
                None => line_of_value(value) is Nothing,
            },
            None => line_of_value(value) is Nothing,
        },
        value.text_at("type"@) == Some("end"@) ==> line_of_value(value) is End,
        value.text_at("type"@) is None ==> line_of_value(value) is Nothing,
        (value.text_at("type"@) matches Some(kind) && kind != "next"@ && kind != "error"@ && kind
            != "end"@) ==> line_of_value(value) is Nothing,
{
    lemma_line_kinds_differ();
}

/// A line that lists its parts means the same, by position, and nothing where it lists
/// more or fewer.
pub proof fn a_listed_line_means_the_same(parts: Seq<JsonView>)
    requires
        parts.len() > 0,
    ensures
        parts[0] == JsonView::Text("next"@) && parts.len() == 2 ==> line_of_value(
            JsonView::Array(parts),
        ) == LineView::Item(Some(parts[1])),
        parts[0] == JsonView::Text("next"@) && parts.len() != 2 ==> line_of_value(
            JsonView::Array(parts),
        ) is Nothing,
        parts[0] == JsonView::Text("end"@) && parts.len() == 1 ==> line_of_value(
            JsonView::Array(parts),
        ) is End,
        parts[0] == JsonView::Text("end"@) && parts.len() > 1 ==> line_of_value(
            JsonView::Array(parts),
        ) is Nothing,
        parts[0] == JsonView::Text("error"@) && parts.len() == 2 ==> match
            crate::client::result::error_body_of(parts[1]) {
            Some(body) => line_of_value(JsonView::Array(parts)) == LineView::Failure(body),
            None => line_of_value(JsonView::Array(parts)) is Nothing,
        },
        parts[0] == JsonView::Text("error"@) && parts.len() != 2 ==> line_of_value(
            JsonView::Array(parts),
        ) is Nothing,
{
    lemma_line_kinds_differ();
}

/// A line is read as the JSON that it holds; a blank line, and one that holds none,
/// means nothing.
pub proof fn a_line_is_read_as_json(line: Seq<u8>)
    ensures
        line.len() == 0 ==> line_of(line) is Nothing,
        line.len() > 0 ==> match json::json_of_bytes(line) {
            Ok(value) => line_of(line) == line_of_value(value),
            Err(_) => line_of(line) is Nothing,
        },
{
}

proof fn lemma_line_ends(line: Seq<u8>, more: Seq<u8>)
    requires
        forall|i: int| 0 <= i < line.len() ==> (#[trigger] line[i]) != 10,
    ensures
        first_line(line + seq![10u8] + more) == Some((line.len() + 1) as nat),
    decreases line.len(),
{
    let whole = line + seq![10u8] + more;
    if line.len() > 0 {
        let rest = line.drop_first();
        assert(line[0] != 10);
        assert forall|i: int| 0 <= i < rest.len() implies (#[trigger] rest[i]) != 10 by {
            assert(line[i + 1] != 10);
        }
        lemma_line_ends(rest, more);
        assert(whole.drop_first() =~= rest + seq![10u8] + more);
    }
}

/// Lines are read one after the other. A result is yielded and the stream goes on with
/// the next line; a failure is yielded and ends it; an end ends it; and a line that
/// means nothing is passed over.
pub proof fn lines_are_read_one_after_the_other(
    state: StreamView,
    chunk: Seq<u8>,
    line: Seq<u8>,
    more: Seq<u8>,
)
    requires
        !state.done,
        state.rest + chunk == line + seq![10u8] + more,
        forall|i: int| 0 <= i < line.len() ==> (#[trigger] line[i]) != 10,
    ensures
        match line_of(line) {
            LineView::Item(data) => fed(state, chunk) == fed(
                StreamView {
                    rest: Seq::empty(),
                    done: false,
                    results: state.results.push(CarriedView::Success(data)),
                },
                more,
            ),
            LineView::Failure(error) => fed(state, chunk) == (StreamView {
                rest: more,
                done: true,
                results: state.results.push(CarriedView::Failure(error)),
            }),
            LineView::End => fed(state, chunk) == (StreamView {
                rest: more,
                done: true,
                results: state.results,
            }),
            LineView::Nothing => fed(state, chunk) == fed(
                StreamView { rest: Seq::empty(), ..state },
                more,
            ),
        },
{
    let whole = state.rest + chunk;
    lemma_line_ends(line, more);
    assert(whole.take(line.len() as int) =~= line);
    assert(whole.skip(line.len() as int + 1) =~= more);
    assert(Seq::<u8>::empty() + more =~= more);
}

/// A line that is not complete is kept until the rest of it comes.
pub proof fn an_incomplete_line_is_kept(state: StreamView, chunk: Seq<u8>)
    requires
        !state.done,
        forall|i: int| 0 <= i < (state.rest + chunk).len() ==> (#[trigger] (state.rest + chunk)[i])
            != 10,
    ensures
        fed(state, chunk) == (StreamView { rest: state.rest + chunk, ..state }),
{
    lemma_first_line(state.rest + chunk);
    if first_line(state.rest + chunk) is Some {
        let n = first_line(state.rest + chunk)->0;
        assert((state.rest + chunk)[n - 1] == 10);
    }
}

} // verus!
