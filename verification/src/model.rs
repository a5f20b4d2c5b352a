//! The speech-recognition model file: where to download it from.

use vstd::prelude::*;
use crate::text::chars_of;

verus! {

/// Where the model files are published; a model is fetched from this base
/// followed by `/` and the model's file name.
pub const MODEL_BASE_URL: &'static str = "https://huggingface.co/ggerganov/whisper.cpp/resolve/main";

/// Whether the character at `k` of `p` is a separator, or a `.` component
/// on its own (which a path's components skip).
pub open spec fn is_trivial_at(p: Seq<char>, k: int) -> bool {
    ||| p[k] == '/'
    ||| p[k] == '.' && (k == 0 || p[k - 1] == '/') && (k + 1 == p.len() || p[k + 1] == '/')
}

/// Everything in `p` from `j` on is separators and `.` components.
pub open spec fn trivial_tail(p: Seq<char>, j: int) -> bool {
    forall|k: int| j <= k < p.len() ==> #[trigger] is_trivial_at(p, k)
}

/// `p[i..j]` is the last component of the path `p` (separator `/`), the
/// empty components and `.` components being skipped as `Path::components`
/// skips them.
pub open spec fn is_last_component(p: Seq<char>, i: int, j: int) -> bool {
    &&& 0 <= i < j <= p.len()
    &&& i == 0 || p[i - 1] == '/'
    &&& j == p.len() || p[j] == '/'
    &&& forall|k: int| i <= k < j ==> #[trigger] p[k] != '/'
    &&& !(j == i + 1 && p[i] == '.')
    &&& trivial_tail(p, j)
}

/// The file name of the path `p`, as `Path::file_name` gives it: its last
/// component, unless there is none or it is `..`.
pub open spec fn file_name(p: Seq<char>) -> Option<Seq<char>> {
    if exists|i: int, j: int| is_last_component(p, i, j) {
        let (i, j) = choose|i: int, j: int| is_last_component(p, i, j);
        if p.subrange(i, j) == seq!['.', '.'] {
            None
        } else {
            Some(p.subrange(i, j))
        }
    } else {
        None
    }
}

/// The address of the model file named `name`.
pub open spec fn model_url(name: Seq<char>) -> Seq<char> {
    MODEL_BASE_URL@ + seq!['/'] + name
}

/// Why no download address can be formed for a model path.
#[derive(Debug, Clone, Copy, PartialEq, Eq)]
pub enum ModelError {
    /// The path has no file name.
    MissingFileName,
}

impl ModelError {
    /// The text of the error, as it is reported to the user.
    pub open spec fn text(self) -> Seq<char> {
        "Invalid or missing filename in model path"@
    }

    /// The text of the error, as it is reported to the user.
    pub fn message(&self) -> (r: String)
        ensures
            r@ == self.text(),
    {
        String::from_str("Invalid or missing filename in model path")
    }
}

proof fn lemma_no_component_in_trivial(p: Seq<char>, i: int, j: int, t: int)
    requires
        0 <= i < j <= p.len(),
        t <= i,
        trivial_tail(p, t),
        i == 0 || p[i - 1] == '/',
        j == p.len() || p[j] == '/',
        forall|k: int| i <= k < j ==> #[trigger] p[k] != '/',
    ensures
        j == i + 1 && p[i] == '.',
{
    assert(is_trivial_at(p, i));
    assert(p[i] != '/');
    if j > i + 1 {
        assert(p[i + 1] != '/');
    }
}

/// A path has at most one last component.
pub proof fn lemma_last_component_unique(p: Seq<char>, i1: int, j1: int, i2: int, j2: int)
    requires
        is_last_component(p, i1, j1),
        is_last_component(p, i2, j2),
    ensures
        i1 == i2 && j1 == j2,
{
    if j1 < j2 {
        if i2 <= j1 {
            assert(p[j1] != '/');
        }
        lemma_no_component_in_trivial(p, i2, j2, j1);
    } else if j2 < j1 {
        if i1 <= j2 {
            assert(p[j2] != '/');
        }
        lemma_no_component_in_trivial(p, i1, j1, j2);
    } else {
        if i1 < i2 {
            assert(p[i2 - 1] != '/');
        } else if i2 < i1 {
            assert(p[i1 - 1] != '/');
        }
    }
}

/// The bounds of the last component of the path `p`, if it has one.
fn last_component(p: &Vec<char>) -> (r: Option<(usize, usize)>)
    ensures
        match r {
            Some((i, j)) => is_last_component(p@, i as int, j as int),
            None => forall|i: int, j: int| !is_last_component(p@, i, j),
        },
{
    let n = p.len();
    let mut end: usize = n;
    loop
        invariant
            n == p@.len(),
            end <= n,
            end == n || p@[end as int] == '/' || (p@[end as int] == '.' && (end == 0 || p@[end
                - 1] == '/')),
            trivial_tail(p@, end as int),
        decreases end,
    {
        let ghost end0 = end;
        while end > 0 && p[end - 1] == '/'
            invariant
                n == p@.len(),
                end <= end0 <= n,
                end == n || p@[end as int] == '/' || (p@[end as int] == '.' && (end == 0 || p@[end
                    - 1] == '/')),
                trivial_tail(p@, end as int),
            decreases end,
        {
            end = end - 1;
            assert forall|k: int| end <= k < p@.len() implies #[trigger] is_trivial_at(p@, k) by {
                if k == end {
                    assert(p@[k] == '/');
                }
            }
        }
        if end == 0 {
            assert forall|i: int, j: int| !is_last_component(p@, i, j) by {
                if is_last_component(p@, i, j) {
                    lemma_no_component_in_trivial(p@, i, j, 0);
                }
            }
            return None;
        }
        assert(end == n || p@[end as int] == '/');
        let mut start: usize = end - 1;
        while start > 0 && p[start - 1] != '/'
            invariant
                n == p@.len(),
                0 < end <= n,
                start < end,
                forall|k: int| start <= k < end ==> #[trigger] p@[k] != '/',
            decreases start,
        {
            start = start - 1;
        }
        if start < end - 1 || p[start] != '.' {
            return Some((start, end));
        }
        assert forall|k: int| start <= k < p@.len() implies #[trigger] is_trivial_at(p@, k) by {
            if k == start {
                assert(p@[k] == '.');
            }
        }
        end = start;
    }
}

/// The address to download the model stored at `model_path` from: the
/// published base, `/`, and the path's file name; an error where the path
/// has no file name.
pub fn model_download_url(model_path: &str) -> (r: Result<String, ModelError>)
    ensures
        r is Ok <==> file_name(model_path@) is Some,
        r matches Ok(url) ==> url@ == model_url(file_name(model_path@).unwrap()),
        r matches Err(e) ==> e == ModelError::MissingFileName,
{
    let cs = chars_of(model_path);
    match last_component(&cs) {
        None => Err(ModelError::MissingFileName),
        Some((i, j)) => {
            proof {
                let (a, b) = choose|a: int, b: int| is_last_component(model_path@, a, b);
                lemma_last_component_unique(model_path@, a, b, i as int, j as int);
            }
            let is_parent = j - i == 2 && cs[i] == '.' && cs[i + 1] == '.';
            proof {
                let name = model_path@.subrange(i as int, j as int);
                let dots = seq!['.', '.'];
                assert(dots.len() == 2);
                if j - i == 2 {
                    assert(name[0] == cs@[i as int]);
                    assert(name[1] == cs@[i + 1]);
                    if is_parent {
                        assert(name =~= dots);
                    } else {
                        assert(name[0] != dots[0] || name[1] != dots[1]);
                    }
                }
                assert(is_parent == (name == dots));
            }
            if is_parent {
                Err(ModelError::MissingFileName)
            } else {
                proof {
                    reveal_strlit("/");
                }
                let mut url = String::from_str(MODEL_BASE_URL);
                url.append("/");
                url.append(model_path.substring_char(i, j));
                Ok(url)
            }
        },
    }
}

} // verus!
