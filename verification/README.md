# Schedule voter

A tool to collect feedback on the accepted or confirmed submissions of a
conference: the audience sees the submissions, expands the ones they want to
read, and votes them up or down. The organizers see the ratings and, for the
submissions that are scheduled at the same time, how strongly the same voters
favour both, so that a schedule can keep popular submissions apart.

`src/` is the verified library (Verus): ballots and the similarity metrics
over them, the sync of a conference's submissions with a pretalx server or a
pushed listing, the checks of every change an organizer makes, login tokens
and passwords, roles and what each may do, and what the queries make of the
rows they read. `tests/` runs it. `app/` is the server around it: the HTTP
routes (axum), the PostgreSQL statements (sea-orm), the requests to pretalx
and to the OpenID Connect provider, and the floating-point ratios of the
similarity metrics.
