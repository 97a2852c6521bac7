# eat

The decisions of `eat`, the `bat`-flavoured `cat` of the editor `edit`, and of
the editor's own command line, as a library verified with Verus.

The library computes on plain values and does no input or output. Where a
decision needs something from outside in its middle -- an answer of git, a look
at a file, whether a pager is there -- it is a step: from what is known so far to
the next thing to find out, or to the result.

| module | what it decides |
|---|---|
| `cli`, `duration`, `plan` | eat's options, the poll interval, and which output path is taken |
| `stream` | the pager, colors, line ranges, and the bytes of each line |
| `listing`, `status`, `size`, `escape` | the rows of a directory listing |
| `git` | what git is asked, and what its answers mean |
| `watch`, `follow`, `snapshot`, `wheel`, `header`, `viewer` | the two viewers |
| `args`, `quirks`, `filename` | the editor's command line |
| `double`, `numeral` | double precision arithmetic, in integers |
| `text` | texts as sequences of characters |

Each module states what its functions return over spec functions, and holds the
laws that relate them as public proof functions.

`app/` reads files and variables, runs git and the pager, and drives the screen.
What belongs to the rest of the editor (language definitions, the gutter, the
text area) comes in through a trait, `Host`.

What is believed of code outside, and not proved, is marked
`#[verifier::external_body]`, `#[verifier::external_type_specification]` or
`assume_specification`: a few functions of the standard library, and those of
`polyflag` that the quirks go through.
