# jira_report

A small web service that builds Jira time reports as Excel workbooks: pick a
project and a range of days, and it gathers the worklogs of the project's
issues and writes a workbook with four tabs (Worklogs, Summary by Person,
Summary by Issue, Hierarchy).

Layout:

- `src/` — the library, verified with Verus:
  - `text.rs`: strings, decimal text, percent-encoding, trimming, number parsing;
  - `date.rs`: calendar dates, the month arithmetic and ISO text (through chrono);
  - `jira.rs`: the Jira records, comment text (ADF), worklog filtering, request
    URLs, paging and retry decisions;
  - `report.rs` and `hierarchy.rs`: the four tabs, as rows of cells, with the
    summaries' and the hierarchy's sums;
  - `job.rs`: report jobs, what the status and download endpoints answer, the
    checks on a request, and the steps of a running job.
- `app/` — the server around it (axum, reqwest, tera, rust_xlsxwriter): HTTP,
  the job store, and writing the workbook out as `.xlsx`.
- `tests/` — tests of the library.
