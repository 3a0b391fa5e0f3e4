# wenku2epub

Downloads a light novel from wenku8 and writes it as an EPUB 2 or EPUB 3 file.

The library in `src/` is verified with Verus: page reading (book page, table of
contents, chapter pages), chapter selection, the EPUB documents and archive, the retry
policy of requests, cover selection, and the job table of the download manager. Each
public function states what it returns in its contract; the laws that relate several
functions are the `law_*` proof functions.

The program in `app/` does what the library leaves to its caller: the terminal menu,
HTTP requests with `reqwest` on `tokio`, running downloads concurrently, reading and
writing files, and progress bars.

`src/standalone/` holds the single-book downloader with its own configuration,
events and EPUB writer; the rest of `src/` serves the job-based downloader that the
program runs.
