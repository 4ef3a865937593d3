//! Matrix multiplication over symbolic elements, plain and tiled: both build
//! the same expression for every entry.
use vstd::prelude::*;

verus! {

/// A symbolic scalar: an element by number, or a sum or product.
#[derive(Debug, PartialEq, Eq)]
pub enum Expr {
    Elem(usize),
    Add(Box<Expr>, Box<Expr>),
    Mul(Box<Expr>, Box<Expr>),
}

impl Clone for Expr {
    fn clone(&self) -> (r: Self)
        ensures
            r == *self,
        decreases self,
    {
        match self {
            Expr::Elem(u) => Expr::Elem(*u),
            Expr::Add(a, b) => Expr::Add(Box::new((**a).clone()), Box::new((**b).clone())),
            Expr::Mul(a, b) => Expr::Mul(Box::new((**a).clone()), Box::new((**b).clone())),
        }
    }
}

impl core::ops::Add<Expr> for Expr {
    type Output = Expr;

    fn add(self, rhs: Expr) -> (r: Expr)
        ensures
            r == Expr::Add(Box::new(self), Box::new(rhs)),
    {
        Expr::Add(Box::new(self), Box::new(rhs))
    }
}

impl vstd::std_specs::ops::AddSpecImpl<Expr> for Expr {
    open spec fn obeys_add_spec() -> bool {
        true
    }

    open spec fn add_req(self, rhs: Expr) -> bool {
        true
    }

    open spec fn add_spec(self, rhs: Expr) -> Expr {
        Expr::Add(Box::new(self), Box::new(rhs))
    }
}

impl vstd::std_specs::ops::MulSpecImpl<Expr> for Expr {
    open spec fn obeys_mul_spec() -> bool {
        true
    }

    open spec fn mul_req(self, rhs: Expr) -> bool {
        true
    }

    open spec fn mul_spec(self, rhs: Expr) -> Expr {
        Expr::Mul(Box::new(self), Box::new(rhs))
    }
}

impl core::ops::Mul<Expr> for Expr {
    type Output = Expr;

    fn mul(self, rhs: Expr) -> (r: Expr)
        ensures
            r == Expr::Mul(Box::new(self), Box::new(rhs)),
    {
        Expr::Mul(Box::new(self), Box::new(rhs))
    }
}

/// The decimal digits of `n`, at least four, padded with zeros.
pub open spec fn padded(n: nat) -> Seq<char> {
    if n < 10 {
        seq!['0', '0', '0', digit(n)]
    } else if n < 100 {
        seq!['0', '0'] + decimal(n)
    } else if n < 1000 {
        seq!['0'] + decimal(n)
    } else {
        decimal(n)
    }
}

/// The decimal digit `d`.
pub open spec fn digit(d: nat) -> char {
    ((48 + d) as u8) as char
}

/// The decimal digits of `n`.
pub open spec fn decimal(n: nat) -> Seq<char>
    decreases n,
{
    if n < 10 {
        seq![digit(n)]
    } else {
        decimal(n / 10) + seq![digit(n % 10)]
    }
}

/// How an expression is written: elements as four or more digits, sums in
/// braces, products in parentheses.
pub open spec fn rendered(e: Expr) -> Seq<char>
    decreases e,
{
    match e {
        Expr::Elem(u) => padded(u as nat),
        Expr::Add(a, b) => seq!['{', ' '] + rendered(*a) + seq![' ', '+', ' '] + rendered(*b) + seq![' ', '}'],
        Expr::Mul(a, b) => seq!['('] + rendered(*a) + seq![' ', '*', ' '] + rendered(*b) + seq![')'],
    }
}

/// The decimal digit `d`, as a string.
fn digit_str(d: usize) -> (r: &'static str)
    requires
        d < 10,
    ensures
        r@ == seq![digit(d as nat)],
{
    proof {
        reveal_strlit("0");
        reveal_strlit("1");
        reveal_strlit("2");
        reveal_strlit("3");
        reveal_strlit("4");
        reveal_strlit("5");
        reveal_strlit("6");
        reveal_strlit("7");
        reveal_strlit("8");
        reveal_strlit("9");
    }
    let r = match d {
        0 => "0",
        1 => "1",
        2 => "2",
        3 => "3",
        4 => "4",
        5 => "5",
        6 => "6",
        7 => "7",
        8 => "8",
        _ => "9",
    };
    assert(r@ =~= seq![digit(d as nat)]);
    r
}

/// Appends the decimal digits of `n`.
fn push_decimal(out: &mut String, n: usize)
    ensures
        final(out)@ == old(out)@ + decimal(n as nat),
    decreases n,
{
    if n >= 10 {
        push_decimal(out, n / 10);
    }
    out.append(digit_str(n % 10));
    assert(final(out)@ =~= old(out)@ + decimal(n as nat));
}

impl Expr {
    /// Appends the written form of the expression (see `rendered`).
    fn write_to(&self, out: &mut String)
        ensures
            final(out)@ == old(out)@ + rendered(*self),
        decreases self,
    {
        proof {
            reveal_strlit("0");
            reveal_strlit("00");
            reveal_strlit("000");
            reveal_strlit("{ ");
            reveal_strlit(" + ");
            reveal_strlit(" }");
            reveal_strlit("(");
            reveal_strlit(" * ");
            reveal_strlit(")");
        }
        match self {
            Expr::Elem(u) => {
                let u = *u;
                if u < 10 {
                    out.append("000");
                } else if u < 100 {
                    out.append("00");
                } else if u < 1000 {
                    out.append("0");
                }
                push_decimal(out, u);
                proof {
                    if u < 10 {
                        assert(decimal(u as nat) =~= seq![digit(u as nat)]);
                    }
                }
                assert(final(out)@ =~= old(out)@ + rendered(*self));
            },
            Expr::Add(a, b) => {
                out.append("{ ");
                (**a).write_to(out);
                out.append(" + ");
                (**b).write_to(out);
                out.append(" }");
                assert(final(out)@ =~= old(out)@ + rendered(*self));
            },
            Expr::Mul(a, b) => {
                out.append("(");
                (**a).write_to(out);
                out.append(" * ");
                (**b).write_to(out);
                out.append(")");
                assert(final(out)@ =~= old(out)@ + rendered(*self));
            },
        }
    }

    /// The written form of the expression (see `rendered`).
    pub fn render(&self) -> (r: String)
        ensures
            r@ == rendered(*self),
    {
        proof {
            reveal_strlit("");
        }
        let mut out = String::from_str("");
        self.write_to(&mut out);
        assert(out@ =~= rendered(*self));
        out
    }
}

/// Entry `k` of row `row` times `b`, after its first `n` terms:
/// `((Elem(0) + row[0] * b[0][k]) + row[1] * b[1][k]) + ...`.
pub open spec fn dot(row: Seq<Expr>, b: Seq<Seq<Expr>>, k: int, n: nat) -> Expr
    decreases n,
{
    if n == 0 {
        Expr::Elem(0)
    } else {
        Expr::Add(
            Box::new(dot(row, b, k, (n - 1) as nat)),
            Box::new(Expr::Mul(Box::new(row[n - 1]), Box::new(b[n - 1][k]))),
        )
    }
}

/// The rows of a matrix.
pub open spec fn rows(m: Seq<Vec<Expr>>) -> Seq<Seq<Expr>> {
    Seq::new(m.len(), |i: int| m[i]@)
}

/// The number of columns of `b`, read from its first row.
pub open spec fn width(b: Seq<Seq<Expr>>) -> nat {
    if b.len() == 0 {
        0
    } else {
        b[0].len()
    }
}

/// Every row of `a` reaches over the rows of `b`, and every row of `b` is as
/// long as its first.
pub open spec fn conformable(a: Seq<Seq<Expr>>, b: Seq<Seq<Expr>>) -> bool {
    &&& forall|i: int| 0 <= i < a.len() ==> #[trigger] a[i].len() >= b.len()
    &&& forall|j: int| 0 <= j < b.len() ==> #[trigger] b[j].len() >= width(b)
}

/// The product `a * b`: one row per row of `a`, `width(b)` columns.
pub open spec fn product(a: Seq<Seq<Expr>>, b: Seq<Seq<Expr>>) -> Seq<Seq<Expr>> {
    Seq::new(a.len(), |i: int| Seq::new(width(b), |k: int| dot(a[i], b, k, b.len())))
}

/// `rows` rows of `cols` zero elements.
fn zeros(n_rows: usize, cols: usize) -> (c: Vec<Vec<Expr>>)
    ensures
        c@.len() == n_rows,
        forall|p: int| 0 <= p < n_rows ==> (#[trigger] c@[p])@.len() == cols,
        forall|p: int, q: int| 0 <= p < n_rows && 0 <= q < cols ==> #[trigger] c@[p]@[q] == Expr::Elem(0),
{
    let mut c: Vec<Vec<Expr>> = Vec::new();
    let mut p: usize = 0;
    while p < n_rows
        invariant
            p <= n_rows,
            c@.len() == p,
            forall|x: int| 0 <= x < p ==> (#[trigger] c@[x])@.len() == cols,
            forall|x: int, y: int| 0 <= x < p && 0 <= y < cols ==> #[trigger] c@[x]@[y] == Expr::Elem(0),
        decreases n_rows - p,
    {
        let mut row: Vec<Expr> = Vec::new();
        let mut q: usize = 0;
        while q < cols
            invariant
                q <= cols,
                row@.len() == q,
                forall|y: int| 0 <= y < q ==> #[trigger] row@[y] == Expr::Elem(0),
            decreases cols - q,
        {
            row.push(Expr::Elem(0));
            q = q + 1;
        }
        c.push(row);
        p = p + 1;
    }
    c
}

/// The product `a * b`, computed row by row.
pub fn matmul(a: Vec<Vec<Expr>>, b: Vec<Vec<Expr>>) -> (c: Vec<Vec<Expr>>)
    requires
        conformable(rows(a@), rows(b@)),
    ensures
        rows(c@) == product(rows(a@), rows(b@)),
{
    let ghost ra = rows(a@);
    let ghost rb = rows(b@);
    let w: usize = if b.len() == 0 {
        0
    } else {
        b[0].len()
    };
    let m = a.len();
    let n = b.len();
    let mut c = zeros(m, w);
    let mut i: usize = 0;
    while i < m
        invariant
            i <= m,
            m == a@.len(),
            n == b@.len(),
            w == width(rb),
            ra == rows(a@),
            rb == rows(b@),
            conformable(ra, rb),
            c@.len() == m,
            forall|p: int| 0 <= p < m ==> (#[trigger] c@[p])@.len() == w,
            forall|p: int, q: int|
                0 <= p < i && 0 <= q < w ==> #[trigger] c@[p]@[q] == dot(ra[p], rb, q, n as nat),
            forall|p: int, q: int| i <= p < m && 0 <= q < w ==> #[trigger] c@[p]@[q] == Expr::Elem(0),
        decreases m - i,
    {
        let mut j: usize = 0;
        while j < n
            invariant
                i < m,
                j <= n,
                m == a@.len(),
                n == b@.len(),
                w == width(rb),
                ra == rows(a@),
                rb == rows(b@),
                conformable(ra, rb),
                c@.len() == m,
                forall|p: int| 0 <= p < m ==> (#[trigger] c@[p])@.len() == w,
                forall|p: int, q: int|
                    0 <= p < i && 0 <= q < w ==> #[trigger] c@[p]@[q] == dot(ra[p], rb, q, n as nat),
                forall|q: int| 0 <= q < w ==> #[trigger] c@[i as int]@[q] == dot(ra[i as int], rb, q, j as nat),
                forall|p: int, q: int| i < p < m && 0 <= q < w ==> #[trigger] c@[p]@[q] == Expr::Elem(0),
            decreases n - j,
        {
            let mut k: usize = 0;
            while k < w
                invariant
                    i < m,
                    j < n,
                    k <= w,
                    m == a@.len(),
                    n == b@.len(),
                    w == width(rb),
                    ra == rows(a@),
                    rb == rows(b@),
                    conformable(ra, rb),
                    c@.len() == m,
                    forall|p: int| 0 <= p < m ==> (#[trigger] c@[p])@.len() == w,
                    forall|p: int, q: int|
                        0 <= p < i && 0 <= q < w ==> #[trigger] c@[p]@[q] == dot(ra[p], rb, q, n as nat),
                    forall|q: int| 0 <= q < k ==> #[trigger] c@[i as int]@[q] == dot(ra[i as int], rb, q, (j + 1) as nat),
                    forall|q: int| k <= q < w ==> #[trigger] c@[i as int]@[q] == dot(ra[i as int], rb, q, j as nat),
                    forall|p: int, q: int| i < p < m && 0 <= q < w ==> #[trigger] c@[p]@[q] == Expr::Elem(0),
                decreases w - k,
            {
                proof {
                    assert(ra[i as int].len() >= n);
                    assert(rb[j as int].len() >= w);
                }
                let v = c[i][k].clone() + a[i][j].clone() * b[j][k].clone();
                let ghost before = c@;
                c[i].set(k, v);
                proof {
                    assert forall|p: int| 0 <= p < m implies (#[trigger] c@[p])@.len() == w by {
                        if p != i {
                            assert(c@[p] == before[p]);
                        }
                    }
                    assert forall|p: int, q: int| 0 <= p < i && 0 <= q < w implies #[trigger] c@[p]@[q] == dot(ra[p], rb, q, n as nat) by {
                        assert(c@[p] == before[p]);
                    }
                    assert forall|p: int, q: int| i < p < m && 0 <= q < w implies #[trigger] c@[p]@[q] == Expr::Elem(0) by {
                        assert(c@[p] == before[p]);
                    }
                }
                k = k + 1;
            }
            j = j + 1;
        }
        i = i + 1;
    }
    proof {
        assert(rows(c@) =~= product(ra, rb)) by {
            assert forall|p: int| 0 <= p < m implies #[trigger] rows(c@)[p] =~= product(ra, rb)[p] by {
            }
        }
    }
    c
}

/// Tile size of `matmul_tiled`.
const T: usize = 2;

/// The end of tile `x` of a dimension of length `len`.
pub open spec fn tile_end(x: int, len: int) -> int {
    if (x + 1) * 2 < len {
        (x + 1) * 2
    } else {
        len
    }
}

pub open spec fn min_int(a: int, b: int) -> int {
    if a < b {
        a
    } else {
        b
    }
}

/// How many terms entry `(p, q)` holds in `matmul_tiled` at the start of
/// tile column `k` within tile row `i`.
pub open spec fn done_col(m: int, w: int, n: int, i: int, k: int, p: int, q: int) -> int {
    if p < i * 2 {
        n
    } else if p < tile_end(i, m) {
        if q < k * 2 {
            n
        } else {
            0
        }
    } else {
        0
    }
}

/// The same at the start of depth tile `j` within tile column `k`.
pub open spec fn done_depth(m: int, w: int, n: int, i: int, k: int, j: int, p: int, q: int) -> int {
    if i * 2 <= p < tile_end(i, m) && k * 2 <= q < tile_end(k, w) {
        min_int(j * 2, n)
    } else {
        done_col(m, w, n, i, k, p, q)
    }
}

/// The same at the start of row `ti` within depth tile `j`.
pub open spec fn done_row(m: int, w: int, n: int, i: int, k: int, j: int, ti: int, p: int, q: int) -> int {
    if i * 2 <= p < ti && k * 2 <= q < tile_end(k, w) {
        tile_end(j, n)
    } else {
        done_depth(m, w, n, i, k, j, p, q)
    }
}

/// The same at the start of column `tk` within row `ti`.
pub open spec fn done_cell(m: int, w: int, n: int, i: int, k: int, j: int, ti: int, tk: int, p: int, q: int) -> int {
    if p == ti && k * 2 <= q < tk {
        tile_end(j, n)
    } else {
        done_row(m, w, n, i, k, j, ti, p, q)
    }
}

/// The product `a * b`, computed tile by tile: for each tile of rows and
/// tile of columns, the depth is walked tile by tile. Each entry still sums
/// its terms in order, so the result is the same as `matmul`'s.
pub fn matmul_tiled(a: Vec<Vec<Expr>>, b: Vec<Vec<Expr>>) -> (c: Vec<Vec<Expr>>)
    requires
        conformable(rows(a@), rows(b@)),
        a@.len() > 0 ==> b@.len() > 0,
    ensures
        rows(c@) == product(rows(a@), rows(b@)),
{
    let ghost ra = rows(a@);
    let ghost rb = rows(b@);
    let w: usize = if b.len() == 0 {
        0
    } else {
        b[0].len()
    };
    let m = a.len();
    let n = b.len();
    let mut c = zeros(m, w);
    let m_tiles = m / T + m % T;
    let w_tiles = w / T + w % T;
    let n_tiles = n / T + n % T;
    let mut i: usize = 0;
    while i < m_tiles
        invariant
            i <= m_tiles,
            m_tiles == m / 2 + m % 2,
            w_tiles == w / 2 + w % 2,
            n_tiles == n / 2 + n % 2,
            m == a@.len(),
            n == b@.len(),
            w == width(rb),
            ra == rows(a@),
            rb == rows(b@),
            conformable(ra, rb),
            c@.len() == m,
            forall|p: int| 0 <= p < m ==> (#[trigger] c@[p])@.len() == w,
            forall|p: int, q: int|
                0 <= p < m && 0 <= q < w ==> #[trigger] c@[p]@[q] == dot(
                    ra[p],
                    rb,
                    q,
                    (if p < i * 2 {
                        n
                    } else {
                        0
                    }) as nat,
                ),
        decreases m_tiles - i,
    {
        let i_end = if m - i * T > T {
            i * T + T
        } else {
            m
        };
        let mut k: usize = 0;
        while k < w_tiles
            invariant
                i < m_tiles,
                k <= w_tiles,
                i_end == tile_end(i as int, m as int),
                m_tiles == m / 2 + m % 2,
                w_tiles == w / 2 + w % 2,
                n_tiles == n / 2 + n % 2,
                m == a@.len(),
                n == b@.len(),
                w == width(rb),
                ra == rows(a@),
                rb == rows(b@),
                conformable(ra, rb),
                c@.len() == m,
                forall|p: int| 0 <= p < m ==> (#[trigger] c@[p])@.len() == w,
                forall|p: int, q: int|
                    0 <= p < m && 0 <= q < w ==> #[trigger] c@[p]@[q] == dot(
                        ra[p],
                        rb,
                        q,
                        done_col(m as int, w as int, n as int, i as int, k as int, p, q) as nat,
                    ),
            decreases w_tiles - k,
        {
            let k_end = if w - k * T > T {
                k * T + T
            } else {
                w
            };
            let mut j: usize = 0;
            while j < n_tiles
                invariant
                    i < m_tiles,
                    k < w_tiles,
                    j <= n_tiles,
                    i_end == tile_end(i as int, m as int),
                    k_end == tile_end(k as int, w as int),
                    m_tiles == m / 2 + m % 2,
                    w_tiles == w / 2 + w % 2,
                    n_tiles == n / 2 + n % 2,
                    m == a@.len(),
                    n == b@.len(),
                    w == width(rb),
                    ra == rows(a@),
                    rb == rows(b@),
                    conformable(ra, rb),
                    c@.len() == m,
                    forall|p: int| 0 <= p < m ==> (#[trigger] c@[p])@.len() == w,
                    forall|p: int, q: int|
                        0 <= p < m && 0 <= q < w ==> #[trigger] c@[p]@[q] == dot(
                            ra[p],
                            rb,
                            q,
                            done_depth(m as int, w as int, n as int, i as int, k as int, j as int, p, q) as nat,
                        ),
                decreases n_tiles - j,
            {
                let j_end = if n - j * T > T {
                    j * T + T
                } else {
                    n
                };
                let mut ti: usize = i * T;
                while ti < i_end
                    invariant
                        i < m_tiles,
                        k < w_tiles,
                        j < n_tiles,
                        i * 2 <= ti <= i_end,
                        i_end == tile_end(i as int, m as int),
                        k_end == tile_end(k as int, w as int),
                        j_end == tile_end(j as int, n as int),
                        m_tiles == m / 2 + m % 2,
                        w_tiles == w / 2 + w % 2,
                        n_tiles == n / 2 + n % 2,
                        m == a@.len(),
                        n == b@.len(),
                        w == width(rb),
                        ra == rows(a@),
                        rb == rows(b@),
                        conformable(ra, rb),
                        c@.len() == m,
                        forall|p: int| 0 <= p < m ==> (#[trigger] c@[p])@.len() == w,
                        forall|p: int, q: int|
                            0 <= p < m && 0 <= q < w ==> #[trigger] c@[p]@[q] == dot(
                                ra[p],
                                rb,
                                q,
                                done_row(m as int, w as int, n as int, i as int, k as int, j as int, ti as int, p, q) as nat,
                            ),
                    decreases i_end - ti,
                {
                    let mut tk: usize = k * T;
                    while tk < k_end
                        invariant
                            i < m_tiles,
                            k < w_tiles,
                            j < n_tiles,
                            i * 2 <= ti < i_end,
                            k * 2 <= tk <= k_end,
                            i_end == tile_end(i as int, m as int),
                            k_end == tile_end(k as int, w as int),
                            j_end == tile_end(j as int, n as int),
                            m_tiles == m / 2 + m % 2,
                            w_tiles == w / 2 + w % 2,
                            n_tiles == n / 2 + n % 2,
                            m == a@.len(),
                            n == b@.len(),
                            w == width(rb),
                            ra == rows(a@),
                            rb == rows(b@),
                            conformable(ra, rb),
                            c@.len() == m,
                            forall|p: int| 0 <= p < m ==> (#[trigger] c@[p])@.len() == w,
                            forall|p: int, q: int|
                                0 <= p < m && 0 <= q < w ==> #[trigger] c@[p]@[q] == dot(
                                    ra[p],
                                    rb,
                                    q,
                                    done_cell(m as int, w as int, n as int, i as int, k as int, j as int, ti as int, tk as int, p, q) as nat,
                                ),
                        decreases k_end - tk,
                    {
                        let mut tj: usize = j * T;
                        while tj < j_end
                            invariant
                                i < m_tiles,
                                k < w_tiles,
                                j < n_tiles,
                                i * 2 <= ti < i_end,
                                k * 2 <= tk < k_end,
                                j * 2 <= tj <= j_end,
                                i_end == tile_end(i as int, m as int),
                                k_end == tile_end(k as int, w as int),
                                j_end == tile_end(j as int, n as int),
                                m_tiles == m / 2 + m % 2,
                                w_tiles == w / 2 + w % 2,
                                n_tiles == n / 2 + n % 2,
                                m == a@.len(),
                                n == b@.len(),
                                w == width(rb),
                                ra == rows(a@),
                                rb == rows(b@),
                                conformable(ra, rb),
                                c@.len() == m,
                                forall|p: int| 0 <= p < m ==> (#[trigger] c@[p])@.len() == w,
                                forall|p: int, q: int|
                                    0 <= p < m && 0 <= q < w && !(p == ti && q == tk) ==> #[trigger] c@[p]@[q] == dot(
                                        ra[p],
                                        rb,
                                        q,
                                        done_cell(m as int, w as int, n as int, i as int, k as int, j as int, ti as int, tk as int, p, q) as nat,
                                    ),
                                c@[ti as int]@[tk as int] == dot(ra[ti as int], rb, tk as int, tj as nat),
                            decreases j_end - tj,
                        {
                            proof {
                                assert(ra[ti as int].len() >= n);
                                assert(rb[tj as int].len() >= w);
                            }
                            let v = c[ti][tk].clone() + a[ti][tj].clone() * b[tj][tk].clone();
                            let ghost before = c@;
                            c[ti].set(tk, v);
                            proof {
                                assert forall|p: int| 0 <= p < m implies (#[trigger] c@[p])@.len() == w by {
                                    if p != ti {
                                        assert(c@[p] == before[p]);
                                    }
                                }
                                assert forall|p: int, q: int|
                                    0 <= p < m && 0 <= q < w && !(p == ti && q == tk) implies #[trigger] c@[p]@[q] == dot(
                                        ra[p],
                                        rb,
                                        q,
                                        done_cell(m as int, w as int, n as int, i as int, k as int, j as int, ti as int, tk as int, p, q) as nat,
                                    ) by {
                                    if p != ti {
                                        assert(c@[p] == before[p]);
                                    } else {
                                        assert(c@[p]@[q] == before[p]@[q]);
                                    }
                                }
                            }
                            tj = tj + 1;
                        }
                        tk = tk + 1;
                    }
                    ti = ti + 1;
                }
                j = j + 1;
            }
            k = k + 1;
        }
        i = i + 1;
    }
    proof {
        assert(rows(c@) =~= product(ra, rb)) by {
            assert forall|p: int| 0 <= p < m implies #[trigger] rows(c@)[p] =~= product(ra, rb)[p] by {
            }
        }
    }
    c
}

} // verus!
